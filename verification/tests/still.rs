//! Still images, and the pieces of a video import.

use std::io::Cursor;

use gifkino::import::{
    import_any, import_planned, is_still_image, take_frame, take_sample, ImportError, ImportPlan,
    Verdict,
};
use gifkino::model::{Frame, FrameKeys};
use gifkino::raster::{is_drawable, Raster, SIDE_LIMIT};
use gifkino::still::{decode_still, read_still, still_frame, still_from, ReadError, StillError};

fn encoded(picture: image::DynamicImage, extension: &str) -> Vec<u8> {
    let format = image::ImageFormat::from_extension(extension).expect("a known format");
    let mut out = Cursor::new(Vec::new());
    picture.write_to(&mut out, format).expect("encoding");
    out.into_inner()
}

#[test]
fn every_still_format_this_claims_actually_decodes() {
    // RGB rather than RGBA: JPEG has no alpha channel to encode, and what
    // is under test is the decoder being compiled in at all.
    let pixels = image::RgbImage::from_pixel(6, 4, image::Rgb([10, 20, 30]));
    let mut keys = FrameKeys::new();
    for extension in ["png", "jpg", "bmp", "tiff", "tga", "qoi", "ppm"] {
        let bytes = encoded(image::DynamicImage::ImageRgb8(pixels.clone()), extension);
        assert!(
            is_still_image(Some(extension)),
            "{extension} is claimed as a still"
        );
        let frame = match decode_still(&bytes, extension, &mut keys) {
            Ok(frame) => frame,
            Err(e) => panic!("{extension}: {e:?}"),
        };
        assert_eq!(
            (frame.pixels.width, frame.pixels.height),
            (6, 4),
            "{extension}"
        );
    }
}

#[test]
fn import_any_reads_a_still_image_as_one_frame() {
    let image = image::RgbaImage::from_pixel(9, 3, image::Rgba([1, 2, 3, 255]));
    let bytes = encoded(image::DynamicImage::ImageRgba8(image), "png");
    let mut keys = FrameKeys::new();
    let mut reported = Vec::new();
    let frames = import_any(
        Some("png"),
        bytes,
        |done, total| {
            reported.push((done, total));
            true
        },
        &mut keys,
    )
    .expect("decoding a png");
    assert_eq!(frames.len(), 1);
    assert_eq!((frames[0].pixels.width, frames[0].pixels.height), (9, 3));
    assert_eq!(reported, vec![(1, Some(1))], "one frame, and it is known");
    assert_eq!(frames[0].delay_cs, 10);
    assert_eq!(frames[0].pixels.pixel_or_clear(8, 2), [1, 2, 3, 255]);
}

#[test]
fn each_kind_of_file_goes_to_its_own_decoder() {
    let mut keys = FrameKeys::new();
    let mut image = image::RgbaImage::from_pixel(4, 3, image::Rgba([255, 0, 0, 255]));
    image.put_pixel(1, 2, image::Rgba([0, 0, 255, 128]));
    let bytes = encoded(image::DynamicImage::ImageRgba8(image), "png");
    let frame = decode_still(&bytes, "PNG", &mut keys).expect("in either case");
    assert_eq!(frame.pixels.pixel_or_clear(1, 2), [0, 0, 255, 128]);
    assert!(matches!(
        import_any(Some("gif"), bytes.clone(), |_, _| true, &mut keys),
        Err(ImportError::Gif(_))
    ));
    assert!(matches!(
        import_any(Some("bmp"), bytes.clone(), |_, _| true, &mut keys),
        Err(ImportError::Still(_))
    ));
    assert!(matches!(
        import_any(Some("mp4"), bytes, |_, _| true, &mut keys),
        Err(ImportError::Video)
    ));
}

#[test]
fn a_file_that_is_no_image_is_refused() {
    let mut keys = FrameKeys::new();
    assert!(matches!(
        decode_still(&vec![1, 2, 3], "png", &mut keys),
        Err(StillError::Unreadable(_))
    ));
    assert!(read_still(&vec![1, 2, 3], "mp4").is_err(), "no such format");
    assert_eq!(keys.next, FrameKeys::new().next, "no key was spent");
    let tall = Raster::blank(1, SIDE_LIMIT + 1);
    assert!(matches!(
        still_frame(tall, &mut keys),
        Err(StillError::TooLarge)
    ));
    let wide = still_frame(Raster::blank(SIDE_LIMIT + 1, 1), &mut keys).expect("a frame");
    assert_eq!((wide.thumb.width, wide.thumb.height), (72, 1));
    for (w, h, fits) in [
        (80, SIDE_LIMIT + 1, true),
        (1, SIDE_LIMIT, true),
        (1, SIDE_LIMIT + 1, false),
        (u32::MAX, 9, true),
    ] {
        assert_eq!(is_drawable(w, h), fits, "{w} by {h}");
    }
}

fn plan(cap: u64) -> ImportPlan {
    ImportPlan {
        width: 2,
        height: 1,
        expected: None,
        cap,
    }
}

#[test]
fn a_decoded_frame_has_to_be_whole() {
    let mut keys = FrameKeys::new();
    let mut frames: Vec<Frame> = Vec::new();
    assert!(take_frame(
        &mut frames,
        &plan(9),
        vec![1, 2, 3, 255, 4, 5, 6, 255],
        &mut keys
    ));
    assert!(!take_frame(&mut frames, &plan(9), vec![1, 2, 3], &mut keys));
    assert_eq!(frames.len(), 1);
    assert_eq!(frames[0].delay_cs, 4);
    assert_eq!(frames[0].pixels.pixel_or_clear(1, 0), [4, 5, 6, 255]);
    // A sample takes the first picture of what came, and only if it is all there.
    let sample = take_sample(&plan(9), &vec![9, 8, 7, 6, 5, 4, 3, 2, 1, 0]).expect("enough");
    assert_eq!(sample.data, vec![9, 8, 7, 6, 5, 4, 3, 2]);
    assert!(take_sample(&plan(9), &vec![0; 7]).is_none());
}

#[test]
fn a_finished_decode_is_timed_or_refused() {
    let mut keys = FrameKeys::new();
    let frames = |keys: &mut FrameKeys| -> Vec<Frame> {
        (0..3)
            .map(|_| Frame::new(Raster::blank(2, 1), 4, keys))
            .collect()
    };
    // Thirds of a tenth of a second: the remainder is spread.
    let timed = import_planned(frames(&mut keys), false, true, &vec![3, 7, 10]).expect("done");
    let delays: Vec<u16> = timed.iter().map(|f| f.delay_cs).collect();
    assert_eq!(delays, vec![3, 4, 3]);
    assert!(matches!(
        import_planned(frames(&mut keys), false, false, &vec![3, 7, 10]),
        Err(Verdict::Failed)
    ));
    assert!(
        import_planned(frames(&mut keys), true, false, &vec![3, 7, 10]).is_ok(),
        "stopped, not failed"
    );
    assert!(matches!(
        import_planned(Vec::new(), false, true, &Vec::new()),
        Err(Verdict::Empty)
    ));
}

#[test]
fn a_long_row_is_a_frame_like_any_other() {
    let mut keys = FrameKeys::new();
    let frame = still_frame(Raster::blank(100_001, 1), &mut keys).expect("one row");
    assert_eq!((frame.pixels.width, frame.pixels.height), (100_001, 1));
}

#[test]
fn what_was_read_of_a_file_decides_what_comes_of_it() {
    let mut keys = FrameKeys::new();
    let first = keys.next;
    assert!(matches!(
        still_from(
            Err(ReadError::Unreadable("no header".to_string())),
            &mut keys
        ),
        Err(StillError::Unreadable(e)) if e == "no header"
    ));
    assert!(matches!(
        still_from(Err(ReadError::NoMemory("too much".to_string())), &mut keys),
        Err(StillError::NoMemory(e)) if e == "too much"
    ));
    assert_eq!(keys.next, first);
    let frame = still_from(Ok(Raster::blank(3, 2)), &mut keys).expect("a small picture");
    assert_eq!((frame.pixels.width, frame.delay_cs), (3, 10));
    assert!(matches!(
        read_still(&vec![1, 2, 3], "mp4"),
        Err(ReadError::Unreadable(e)) if e == "mp4"
    ));
}

#[test]
fn a_picture_that_asks_for_too_much_memory_is_told_from_a_broken_file() {
    // The header of a BMP 60000 pixels square, without the pixels.
    let mut bytes = b"BM".to_vec();
    for word in [54u32, 0, 54, 40, 60000, 60000, 0x0018_0001, 0, 0, 0, 0, 0, 0] {
        bytes.extend_from_slice(&word.to_le_bytes());
    }
    assert!(matches!(
        read_still(&bytes, "bmp"),
        Err(ReadError::NoMemory(_))
    ));
    let mut keys = FrameKeys::new();
    assert!(matches!(
        decode_still(&bytes, "bmp", &mut keys),
        Err(StillError::NoMemory(_))
    ));
    assert_eq!(keys.next, FrameKeys::new().next, "no key was spent");
    bytes.truncate(20);
    assert!(matches!(
        read_still(&bytes, "bmp"),
        Err(ReadError::Unreadable(_))
    ));
}

#[test]
fn a_still_reads_the_same_each_time() {
    let image = image::RgbImage::from_fn(7, 5, |x, y| image::Rgb([x as u8 * 30, y as u8 * 50, 9]));
    for extension in ["png", "bmp", "tga", "qoi", "ppm", "jpg", "tiff"] {
        let bytes = encoded(image::DynamicImage::ImageRgb8(image.clone()), extension);
        let first = read_still(&bytes, extension).expect("a picture");
        let again = read_still(&bytes, &extension.to_uppercase()).expect("a picture");
        assert_eq!((first.width, first.height), (7, 5), "{extension}");
        assert_eq!((again.width, again.height), (7, 5), "{extension}");
        if extension != "jpg" {
            assert_eq!(first.data, again.data, "{extension}");
            assert_eq!(first.pixel_or_clear(3, 4), [90, 200, 9, 255], "{extension}");
        }
    }
}
