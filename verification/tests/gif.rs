//! Writing GIFs and reading them back.

use gifkino::document::Document;
use gifkino::encode::{
    encode, encoded_size, estimate_gif_size, estimate_size, sample_indices, EncodeError, Estimate,
    ESTIMATE_SAMPLES,
};
use gifkino::gif_in::{decode, DecodeError};
use gifkino::gif_out::{sample, Encodable, ExportSettings};
use gifkino::import::ImportPlan;
use gifkino::model::{Frame, FrameKeys, Overlay};
use gifkino::raster::Raster;

fn flat(w: u32, h: u32, color: [u8; 4]) -> Raster {
    let data = (0..w * h).flat_map(|_| color).collect();
    Raster::from_raw(w, h, data).expect("exactly enough bytes")
}

fn put(img: &mut Raster, x: u32, y: u32, color: [u8; 4]) {
    let at = ((y * img.width + x) * 4) as usize;
    img.data[at..at + 4].copy_from_slice(&color);
}

fn doc_of(frames: Vec<(Raster, u16)>) -> Document {
    let mut keys = FrameKeys::new();
    Document::from_frames(
        frames
            .into_iter()
            .map(|(img, delay)| Frame::new(img, delay, &mut keys))
            .collect(),
    )
}

fn source() -> Document {
    doc_of(vec![
        (flat(8, 8, [200, 30, 30, 255]), 7),
        (flat(8, 8, [30, 200, 30, 255]), 3),
        (flat(8, 8, [30, 30, 200, 255]), 42),
    ])
}

fn plain(under: Raster, _: &Overlay) -> Raster {
    under
}

/// Each frame's delay at a speed.
fn delays(doc: &Document, speed: f32) -> Vec<u16> {
    doc.frames
        .iter()
        .map(|f| (f.delay_cs as f32 / speed).round().clamp(1.0, u16::MAX as f32) as u16)
        .collect()
}

fn whole(doc: &Document) -> Encodable {
    Encodable::from_document(doc, &plain, &delays(doc, 1.0), None)
}

fn sampled(doc: &Document, count: usize) -> Encodable {
    Encodable::sample_document(doc, &plain, &delays(doc, 1.0), None, count)
}

fn written(enc: &Encodable, settings: &ExportSettings) -> Vec<u8> {
    encode(enc, settings, |_, _| {}).expect("an encodable document")
}

fn read(bytes: Vec<u8>) -> Vec<Frame> {
    let mut keys = FrameKeys::new();
    decode(bytes, |_, _| true, &mut keys).expect("a readable file")
}

/// The size an estimate comes to for so many frames.
fn extrapolated(estimate: Estimate, total: usize) -> usize {
    match estimate {
        Estimate::Measured(bytes) => bytes,
        Estimate::Sampled {
            once,
            frames,
            sampled,
        } => once + (frames as f64 / sampled as f64 * total as f64) as usize,
    }
}

#[test]
fn encode_reports_each_frame_with_its_total() {
    for (frames, delays) in [(1, vec![7]), (3, vec![7, 3, 42])] {
        let doc = doc_of(
            delays
                .into_iter()
                .enumerate()
                .map(|(i, delay)| (flat(8, 8, [i as u8 * 40, 30, 30, 255]), delay))
                .collect(),
        );
        let enc = whole(&doc);
        let mut seen = Vec::new();
        encode(&enc, &ExportSettings::default(), |done, total| {
            seen.push((done, total))
        })
        .expect("an encodable document");
        let want: Vec<(usize, usize)> = (1..=frames).map(|done| (done, frames)).collect();
        assert_eq!(seen, want, "{frames} frames");
    }
}

#[test]
fn round_trip_preserves_per_frame_delays() {
    let doc = source();
    let enc = whole(&doc);
    let decoded = read(written(&enc, &ExportSettings::default()));
    assert_eq!(decoded.len(), 3);
    assert_eq!(
        decoded.iter().map(|f| f.delay_cs).collect::<Vec<_>>(),
        vec![7, 3, 42],
        "delays are the reason this app does not use ffmpeg for GIF"
    );
    // colors survive quantization on flat input
    assert_eq!(decoded[1].pixels.pixel_or_clear(4, 4)[1], 200);
}

#[test]
fn speed_rescales_delays() {
    let doc = source();
    let enc = Encodable::from_document(&doc, &plain, &delays(&doc, 2.0), None);
    assert_eq!(
        enc.frames.iter().map(|(_, d)| *d).collect::<Vec<_>>(),
        vec![4, 2, 21]
    );
}

#[test]
fn resize_follows_the_source_aspect() {
    let doc = doc_of(vec![(flat(100, 50, [1, 2, 3, 255]), 5)]);
    let width = 40u32;
    let (sw, sh) = doc.size();
    let height = ((width as f32 / sw as f32) * sh as f32).round().max(1.0) as u32;
    let enc = Encodable::from_document(&doc, &plain, &delays(&doc, 1.0), Some((width, height)));
    assert_eq!((enc.frames[0].0.width, enc.frames[0].0.height), (40, 20));
    assert_eq!(enc.frames[0].0.pixel_or_clear(20, 10), [1, 2, 3, 255]);
}

#[test]
fn transparency_survives_the_round_trip() {
    let mut img = flat(8, 8, [255, 0, 0, 255]);
    put(&mut img, 0, 0, [0, 0, 0, 0]);
    let doc = doc_of(vec![(img, 5)]);
    let decoded = read(written(&whole(&doc), &ExportSettings::default()));
    assert_eq!(decoded[0].pixels.pixel_or_clear(0, 0)[3], 0);
    assert_eq!(decoded[0].pixels.pixel_or_clear(4, 4)[3], 255);
}

#[test]
fn gif_returning_false_from_progress_stops_the_decode() {
    let bytes = written(&whole(&source()), &ExportSettings::default());

    let mut keys = FrameKeys::new();
    let mut seen = Vec::new();
    let decoded = decode(
        bytes,
        |done, expected: Option<usize>| {
            seen.push((done, expected));
            done < 2
        },
        &mut keys,
    )
    .expect("a readable file");
    assert_eq!(decoded.len(), 2, "stopped where it was told to");
    assert_eq!(
        seen.iter().map(|(done, _)| *done).collect::<Vec<_>>(),
        vec![1, 2],
        "one report per decoded frame"
    );
    assert!(
        seen.iter().all(|(_, expected)| expected.is_none()),
        "a GIF header carries no frame count to promise"
    );
}

/// A moving subject on a flat field: frames differ, so a sample taken from
/// the front alone would misjudge the whole.
fn moving_doc(frames: usize, w: u32, h: u32) -> Document {
    doc_of(
        (0..frames)
            .map(|i| {
                let mut img = flat(w, h, [20, 20, 40, 255]);
                let x = (i as u32 * 3) % w.saturating_sub(8).max(1);
                for dy in 0..h.min(8) {
                    for dx in 0..8u32.min(w) {
                        put(&mut img, x + dx, dy, [240, 200, 40, 255]);
                    }
                }
                (img, 5)
            })
            .collect(),
    )
}

#[test]
fn the_sampled_estimate_tracks_a_real_encode() {
    let doc = moving_doc(120, 96, 64);
    let settings = ExportSettings::default();

    let actual = encoded_size(&whole(&doc), &settings).expect("an encodable document");

    let sample = sampled(&doc, ESTIMATE_SAMPLES);
    assert_eq!(sample.frames.len(), ESTIMATE_SAMPLES, "encodes a fraction");
    let estimate = extrapolated(
        estimate_size(&sample, doc.frames.len(), &settings).expect("an encodable sample"),
        doc.frames.len(),
    );

    let error = (estimate as f64 / actual as f64 - 1.0).abs();
    assert!(
        error < 0.10,
        "estimate {estimate} vs actual {actual} ({:.1}%)",
        error * 100.0
    );
}

#[test]
fn the_sample_is_spread_across_the_document_not_taken_from_the_front() {
    let doc = moving_doc(80, 32, 32);
    let sample = sampled(&doc, 8);
    assert_ne!(
        sample.frames[7].0.data, doc.frames[7].pixels.data,
        "the last sample is not the eighth frame"
    );
    assert_eq!(
        sample_indices(80, 8),
        vec![5, 15, 25, 35, 45, 55, 65, 75],
        "the middle of each eighth"
    );
}

#[test]
fn a_short_document_is_measured_rather_than_extrapolated() {
    let doc = moving_doc(4, 32, 32);
    let settings = ExportSettings::default();
    let sample = sampled(&doc, ESTIMATE_SAMPLES);
    assert_eq!(sample.frames.len(), 4);
    let size = encoded_size(&sample, &settings).expect("an encodable sample");
    match estimate_size(&sample, 4, &settings).expect("an encodable sample") {
        Estimate::Measured(bytes) => assert_eq!(bytes, size, "no guesswork left in it"),
        other => panic!("{other:?}"),
    }
}

#[test]
fn the_estimate_scales_with_the_frame_count() {
    let doc = moving_doc(40, 32, 32);
    let settings = ExportSettings::default();
    let sample = sampled(&doc, 4);
    let (short, long) = (
        extrapolated(
            estimate_size(&sample, 100, &settings).expect("an encodable sample"),
            100,
        ),
        extrapolated(
            estimate_size(&sample, 400, &settings).expect("an encodable sample"),
            400,
        ),
    );
    // Four times the frames, minus the header that is only paid once.
    assert!(long > short * 3 && long < short * 4, "{short} -> {long}");
}

#[test]
fn fewer_colors_makes_a_smaller_file() {
    let mut img = Raster::blank(64, 64);
    for y in 0..64 {
        for x in 0..64 {
            put(
                &mut img,
                x,
                y,
                [(x * 4) as u8, (y * 4) as u8, ((x + y) * 2) as u8, 255],
            );
        }
    }
    let doc = doc_of(vec![(img, 5)]);
    let big = ExportSettings {
        colors: 256,
        ..Default::default()
    };
    let small = ExportSettings {
        colors: 16,
        ..Default::default()
    };
    let enc = whole(&doc);
    assert!(
        encoded_size(&enc, &small).expect("an encodable document")
            < encoded_size(&enc, &big).expect("an encodable document")
    );
}

/// Palette for the hand-built GIFs below: red, green, blue, and a black
/// slot the frames never draw with.
const PALETTE: [u8; 12] = [255, 0, 0, 0, 255, 0, 0, 0, 255, 0, 0, 0];
const RED: [u8; 4] = [255, 0, 0, 255];
const GREEN: [u8; 4] = [0, 255, 0, 255];
const BLUE: [u8; 4] = [0, 0, 255, 255];

/// A 4x4 GIF written straight with the `gif` crate, so the frames can use
/// offsets and disposal methods this app's own encoder never writes.
fn handmade(frames: &[gif::Frame<'_>]) -> Vec<u8> {
    let mut bytes = Vec::new();
    {
        let mut encoder = gif::Encoder::new(&mut bytes, 4, 4, &PALETTE).expect("a header");
        for frame in frames {
            encoder.write_frame(frame).expect("a frame");
        }
    }
    bytes
}

/// A `w`x`h` patch of one palette colour at (`left`, `top`).
fn patch(
    left: u16,
    top: u16,
    w: u16,
    h: u16,
    index: u8,
    dispose: gif::DisposalMethod,
) -> gif::Frame<'static> {
    gif::Frame {
        left,
        top,
        width: w,
        height: h,
        delay: 5,
        dispose,
        buffer: vec![index; w as usize * h as usize].into(),
        ..Default::default()
    }
}

/// Red background, then a green patch in the corner disposed with
/// `dispose`, then a blue pixel elsewhere: the third frame shows what the
/// disposal left under the patch.
fn after_disposing_a_patch(dispose: gif::DisposalMethod) -> Vec<Frame> {
    let keep = gif::DisposalMethod::Keep;
    read(handmade(&[
        patch(0, 0, 4, 4, 0, keep),
        patch(0, 0, 2, 2, 1, dispose),
        patch(3, 3, 1, 1, 2, keep),
    ]))
}

#[test]
fn restore_to_previous_disposal_brings_back_the_canvas_under_the_frame() {
    let frames = after_disposing_a_patch(gif::DisposalMethod::Previous);
    assert_eq!(
        frames[1].pixels.pixel_or_clear(0, 0),
        GREEN,
        "the patch shows"
    );
    assert_eq!(frames[1].pixels.pixel_or_clear(3, 3), RED);
    assert_eq!(
        frames[2].pixels.pixel_or_clear(0, 0),
        RED,
        "restored under the patch"
    );
    assert_eq!(frames[2].pixels.pixel_or_clear(1, 1), RED);
    assert_eq!(
        frames[2].pixels.pixel_or_clear(3, 3),
        BLUE,
        "the next frame still draws"
    );
}

#[test]
fn background_disposal_clears_only_the_frames_rectangle() {
    let frames = after_disposing_a_patch(gif::DisposalMethod::Background);
    assert_eq!(
        frames[1].pixels.pixel_or_clear(0, 0),
        GREEN,
        "the patch shows"
    );
    assert_eq!(
        frames[2].pixels.pixel_or_clear(0, 0)[3],
        0,
        "cleared under the patch"
    );
    assert_eq!(frames[2].pixels.pixel_or_clear(1, 1)[3], 0);
    assert_eq!(
        frames[2].pixels.pixel_or_clear(2, 2),
        RED,
        "outside it untouched"
    );
    assert_eq!(frames[2].pixels.pixel_or_clear(3, 3), BLUE);
}

#[test]
fn a_frame_hanging_off_the_canvas_draws_only_what_is_inside() {
    let keep = gif::DisposalMethod::Keep;
    let frames = read(handmade(&[
        patch(0, 0, 4, 4, 0, keep),
        patch(3, 3, 3, 3, 2, keep),
    ]));
    let pixels = &frames[1].pixels;
    assert_eq!((pixels.width, pixels.height), (4, 4));
    assert_eq!(pixels.pixel_or_clear(3, 3), BLUE);
    assert_eq!(pixels.pixel_or_clear(2, 3), RED);
    assert_eq!(pixels.pixel_or_clear(3, 2), RED);
}

#[test]
fn a_gif_with_no_frames_is_an_error_not_an_empty_document() {
    let mut keys = FrameKeys::new();
    // A file that ends right after its header is cut short.
    let bytes = handmade(&[]);
    assert!(matches!(
        decode(bytes, |_, _| true, &mut keys),
        Err(DecodeError::Header(_))
    ));
    // With a byte behind its trailer it reads as a whole file of no frames.
    let mut bytes = handmade(&[]);
    bytes.push(0);
    assert!(matches!(
        decode(bytes, |_, _| true, &mut keys),
        Err(DecodeError::Empty)
    ));
}

#[test]
fn a_file_that_is_no_gif_fails_at_its_header() {
    let mut keys = FrameKeys::new();
    assert!(matches!(
        decode(b"not a gif".to_vec(), |_, _| true, &mut keys),
        Err(DecodeError::Header(_))
    ));
}

#[test]
fn a_file_cut_short_fails_at_its_frame() {
    let mut keys = FrameKeys::new();
    let mut bytes = written(&whole(&source()), &ExportSettings::default());
    let half = bytes.len() - 30;
    bytes.truncate(half);
    assert!(matches!(
        decode(bytes, |_, _| true, &mut keys),
        Err(DecodeError::Frame(_))
    ));
}

#[test]
fn an_empty_export_is_refused() {
    let empty = Encodable { frames: Vec::new() };
    let settings = ExportSettings::default();
    assert!(matches!(
        encode(&empty, &settings, |_, _| {}),
        Err(EncodeError::Empty)
    ));
    assert!(matches!(
        estimate_size(&empty, 10, &settings),
        Err(EncodeError::Empty)
    ));
}

#[test]
fn the_loop_count_is_written_into_the_file() {
    let enc = whole(&source());
    for (loops, want) in [
        (Some(3), gif::Repeat::Finite(3)),
        (None, gif::Repeat::Infinite),
    ] {
        let settings = ExportSettings {
            loops,
            ..Default::default()
        };
        let bytes = written(&enc, &settings);
        let mut decoder = gif::DecodeOptions::new()
            .read_info(std::io::Cursor::new(bytes))
            .expect("a header");
        while decoder.read_next_frame().expect("a frame").is_some() {}
        assert_eq!(decoder.repeat(), want, "{loops:?}");
    }
}

#[test]
fn the_head_of_the_file_is_written_out() {
    let doc = doc_of(vec![(flat(300, 2, [9, 8, 7, 255]), 5)]);
    let bytes = written(&whole(&doc), &ExportSettings::default());
    assert_eq!(&bytes[..6], b"GIF89a");
    assert_eq!(&bytes[6..10], &[44, 1, 2, 0], "300 by 2");
    // Places for 256 colors, three bytes each, and then the first extension.
    assert_eq!(&bytes[10..13], &[0xf7, 0, 0]);
    assert_eq!(bytes[13 + 768], 0x21);
}

#[test]
fn dithering_keeps_a_gradient_closer_on_average() {
    let (w, h) = (64u32, 32u32);
    let mut img = Raster::blank(w, h);
    for y in 0..h {
        for x in 0..w {
            let v = (x * 4) as u8;
            put(&mut img, x, y, [v, v, v, 255]);
        }
    }
    let doc = doc_of(vec![(img, 5)]);
    let source = &doc.frames[0].pixels;
    let column_error = |dither: bool| {
        let settings = ExportSettings {
            colors: 4,
            dither,
            ..Default::default()
        };
        let frames = read(written(&whole(&doc), &settings));
        let out = &frames[0].pixels;
        (0..w)
            .map(|x| {
                let mean = (0..h)
                    .map(|y| out.pixel_or_clear(x as u64, y as u64)[0] as f64)
                    .sum::<f64>()
                    / h as f64;
                (mean - source.pixel_or_clear(x as u64, 0)[0] as f64).abs()
            })
            .sum::<f64>()
            / w as f64
    };
    let (plain, dithered) = (column_error(false), column_error(true));
    assert!(
        dithered < plain / 2.0,
        "dithered {dithered:.1} vs plain {plain:.1} mean column error"
    );
}

#[test]
fn a_file_not_yet_imported_is_measured_from_samples() {
    let plan = ImportPlan {
        width: 16,
        height: 16,
        expected: Some(40),
        cap: 100,
    };
    let samples = (0..4).map(|i| flat(16, 16, [i * 50, 10, 10, 255])).collect();
    match estimate_gif_size(samples, 4, &plan).expect("encodable samples") {
        Estimate::Sampled { sampled, .. } => assert_eq!(sampled, 4),
        other => panic!("{other:?}"),
    }
    assert!(matches!(
        estimate_gif_size(Vec::new(), 4, &plan),
        Err(EncodeError::Empty)
    ));
}

#[test]
fn pictures_without_a_canvas_are_not_encodable() {
    let enc = Encodable {
        frames: vec![(flat(8, 8, RED), 1)],
    };
    assert!(enc.encodable());
    let enc = Encodable {
        frames: vec![(flat(65536, 1, RED), 1)],
    };
    assert!(!enc.encodable(), "the format holds a width of nothing");
}

#[test]
fn what_was_written_reads_back_frame_by_frame() {
    let mut first = flat(4, 4, [200, 30, 30, 255]);
    put(&mut first, 0, 0, [0, 0, 0, 0]);
    let mut second = flat(4, 4, [30, 30, 200, 255]);
    put(&mut second, 0, 0, [0, 0, 0, 0]);
    put(&mut second, 2, 1, [9, 9, 9, 0]);
    let enc = Encodable {
        frames: vec![(first, 0), (second, 500)],
    };
    let bytes = encode(&enc, &ExportSettings::default(), |_, _| {}).expect("two frames");
    let mut keys = FrameKeys::new();
    let frames = decode(bytes, |_, _| true, &mut keys).expect("the same two");
    let delays: Vec<u16> = frames.iter().map(|f| f.delay_cs).collect();
    assert_eq!(delays, vec![1, 500], "a frame is shown for a while");
    let (one, two) = (&frames[0].pixels, &frames[1].pixels);
    assert_eq!((one.width, one.height), (4, 4));
    assert_eq!(one.pixel_or_clear(0, 0)[3], 0);
    assert_eq!(two.pixel_or_clear(0, 0)[3], 0, "never drawn");
    assert_eq!(
        two.pixel_or_clear(2, 1),
        one.pixel_or_clear(2, 1),
        "what was there shows through"
    );
    let near = |a: [u8; 4], b: [u8; 4]| (0..4).all(|c| a[c].abs_diff(b[c]) <= 12);
    assert!(near(one.pixel_or_clear(3, 3), [200, 30, 30, 255]));
    assert!(near(two.pixel_or_clear(3, 3), [30, 30, 200, 255]));
}

#[test]
fn a_frame_with_too_few_pixels_is_refused() {
    let enc = Encodable {
        frames: vec![(flat(4, 4, RED), 1), (flat(2, 2, RED), 1)],
    };
    assert!(matches!(
        encode(&enc, &ExportSettings::default(), |_, _| {}),
        Err(EncodeError::Write(_))
    ));
    assert!(matches!(
        encoded_size(&enc, &ExportSettings::default()),
        Err(EncodeError::Write(_))
    ));
}

#[test]
fn a_scaled_export_has_the_size_asked_for() {
    let doc = source();
    let (w, h) = doc.size();
    let enc = Encodable::from_document(&doc, &plain, &delays(&doc, 1.0), Some((w / 2, h / 2)));
    assert_eq!(enc.frames.len(), doc.frames.len());
    for (picture, _) in &enc.frames {
        assert_eq!((picture.width, picture.height), (w / 2, h / 2));
    }
    let frames = read(written(&enc, &ExportSettings::default()));
    assert_eq!((frames[0].pixels.width, frames[0].pixels.height), (w / 2, h / 2));
}

#[test]
fn a_scaled_export_shows_each_frame_of_the_document() {
    let colors = [[10, 20, 30, 255], [200, 0, 0, 255], [0, 90, 180, 255]];
    let doc = doc_of(colors.iter().map(|c| (flat(20, 10, *c), 5)).collect());
    let enc = Encodable::from_document(&doc, &plain, &delays(&doc, 1.0), Some((8, 4)));
    for (k, color) in colors.iter().enumerate() {
        assert_eq!(enc.frames[k].0.pixel_or_clear(4, 2), *color, "frame {k}");
    }
    let some = Encodable::sample_document(&doc, &plain, &delays(&doc, 1.0), Some((8, 4)), 2);
    assert_eq!(some.frames[0].0.pixel_or_clear(4, 2), colors[0]);
    assert_eq!(some.frames[1].0.pixel_or_clear(4, 2), colors[2]);
    let paired = Encodable::pair(vec![flat(2, 1, colors[1]), flat(1, 1, colors[2])], &vec![7, 3]);
    assert_eq!((paired.frames[0].0.width, paired.frames[0].1), (2, 7));
    assert_eq!((paired.frames[1].0.width, paired.frames[1].1), (1, 3));
}

#[test]
fn the_palette_samples_few_frames() {
    for (count, taken) in [(1, 1), (16, 16), (17, 9), (31, 16), (33, 11), (160, 16)] {
        let frames: Vec<(Raster, u16)> = (0..count).map(|_| (flat(1, 1, RED), 1)).collect();
        assert_eq!(sample(&frames).len(), taken * 4, "{count}");
    }
}
