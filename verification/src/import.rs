//! What comes in and how: which decoder a file goes to, what a video import
//! would do to it, and the delays of what it brings.

use vstd::prelude::*;

use crate::canvas::key_after;
use crate::gif_in::{decode, decoded, DecodeError};
use crate::model::{new_frame, next_key, Frame, FrameKeys};
use crate::raster::{drawable, fills, is_drawable, Picture, Raster};
use crate::still::{
    decode_still, names_format, read_still, still_made, still_read, ReadError, StillError,
};
use crate::text::{
    chars_of, decimal, decimal_of, extend, lines, lines_of, lower_chars, lowered, number_of,
    parsed_number, same_chars, text_of, texts, trim, trimmed,
};

verus! {

/// A still spliced into an empty document has no neighbour to take a delay
/// from: 10cs is the same default the frame list uses elsewhere.
pub const STILL_DELAY_CS: u16 = 10;

/// Which decoder a file goes to.
#[derive(Clone, Copy, PartialEq, Eq, Debug, Structural)]
pub enum Route {
    Gif,
    Still,
    Video,
}

/// Whether the extension, in lower case, is one of a still image.
pub open spec fn still_extension(e: Seq<char>) -> bool {
    e == "png"@ || e == "jpg"@ || e == "jpeg"@ || e == "bmp"@ || e == "tif"@ || e == "tiff"@ || e
        == "tga"@ || e == "ico"@ || e == "qoi"@ || e == "ppm"@ || e == "pgm"@ || e == "pbm"@ || e
        == "pnm"@
}

/// What is decoded as one frame rather than handed to ffmpeg, by the file's
/// extension. Formats that can animate — GIF, WebP, APNG — are not in here:
/// they go to a decoder that can see every frame.
pub fn is_still_image(extension: Option<&str>) -> (r: bool)
    ensures
        r == match extension {
            Some(e) => still_extension(lowered(e@)),
            None => false,
        },
{
    let e = match extension {
        Some(e) => lower_chars(&chars_of(e)),
        None => {
            return false;
        },
    };
    same_chars(&e, &chars_of("png")) || same_chars(&e, &chars_of("jpg")) || same_chars(
        &e,
        &chars_of("jpeg"),
    ) || same_chars(&e, &chars_of("bmp")) || same_chars(&e, &chars_of("tif")) || same_chars(
        &e,
        &chars_of("tiff"),
    ) || same_chars(&e, &chars_of("tga")) || same_chars(&e, &chars_of("ico")) || same_chars(
        &e,
        &chars_of("qoi"),
    ) || same_chars(&e, &chars_of("ppm")) || same_chars(&e, &chars_of("pgm")) || same_chars(
        &e,
        &chars_of("pbm"),
    ) || same_chars(&e, &chars_of("pnm"))
}

/// Whether the file's extension is the one wanted, in either case.
pub fn has_extension(extension: Option<&str>, want: &str) -> (r: bool)
    ensures
        r == match extension {
            Some(e) => lowered(e@) == lowered(want@),
            None => false,
        },
{
    match extension {
        Some(e) => same_chars(&lower_chars(&chars_of(e)), &lower_chars(&chars_of(want))),
        None => false,
    }
}

/// The decoder a file with this extension goes to.
pub open spec fn route_of(extension: Option<Seq<char>>) -> Route {
    match extension {
        Some(e) => if lowered(e) == lowered("gif"@) {
            Route::Gif
        } else if still_extension(lowered(e)) {
            Route::Still
        } else {
            Route::Video
        },
        None => Route::Video,
    }
}

/// Existing GIFs go through the `gif` crate, still images through `image`,
/// everything else through ffmpeg — so a PNG splices in on a build with no
/// ffmpeg at all.
pub fn route(extension: Option<&str>) -> (r: Route)
    ensures
        r == route_of(
            match extension {
                Some(e) => Some(e@),
                None => None,
            },
        ),
{
    if has_extension(extension, "gif") {
        Route::Gif
    } else if is_still_image(extension) {
        Route::Still
    } else {
        Route::Video
    }
}

/// Every extension that is taken for a still image names a format to decode it
/// with.
pub proof fn law_still_images_have_a_format(e: Seq<char>)
    requires
        still_extension(e),
    ensures
        names_format(e),
{
}

/// Why a file did not come in.
#[derive(Debug)]
pub enum ImportError {
    Gif(DecodeError),
    Still(StillError),
    /// It is for ffmpeg to decode.
    Video,
}

/// Whether `r` is the one frame of what was read of a still image, or why there
/// is none.
pub open spec fn one_frame(
    read: Result<Raster, ReadError>,
    before: FrameKeys,
    r: Result<Vec<Frame>, ImportError>,
    after: FrameKeys,
) -> bool {
    match r {
        Ok(frames) => frames@.len() == 1 && still_made(read, before, Ok(frames@[0]), after),
        Err(ImportError::Still(e)) => still_made(read, before, Err(e), after),
        Err(_) => false,
    }
}

/// One entry point for every file that is read whole: a GIF's frames, or a
/// still image as one. A video is not: ffmpeg reads it.
pub fn import_any<P: FnMut(usize, Option<usize>) -> bool>(
    extension: Option<&str>,
    bytes: Vec<u8>,
    progress: P,
    keys: &mut FrameKeys,
) -> (r: Result<Vec<Frame>, ImportError>)
    requires
        0xffff * 0xffff * 4 <= usize::MAX,
        forall|k: usize, total: Option<usize>| #[trigger] call_requires(progress, (k, total)),
    ensures
        match route_of(
            match extension {
                Some(e) => Some(e@),
                None => None,
            },
        ) {
            Route::Gif => match r {
                Ok(frames) => decoded(bytes@, progress, old(keys).next, Ok(frames)),
                Err(ImportError::Gif(e)) => decoded(bytes@, progress, old(keys).next, Err(e)),
                Err(_) => false,
            },
            Route::Still => {
                &&& extension matches Some(e)
                &&& exists|read: Result<Raster, ReadError>|
                    call_ensures(read_still, (&bytes, e), read) && still_read(bytes@, e@, read)
                        && #[trigger] one_frame(
                        read,
                        *old(keys),
                        r,
                        *final(keys),
                    )
                &&& r is Ok ==> exists|going: bool| #[trigger]
                    call_ensures(progress, (1usize, Some(1usize)), going)
            },
            Route::Video => r matches Err(ImportError::Video),
        },
        r matches Ok(frames) ==> final(keys).next == key_after(old(keys).next, frames@.len()),
{
    match route(extension) {
        Route::Gif => match decode(bytes, progress, keys) {
            Ok(frames) => Ok(frames),
            Err(e) => Err(ImportError::Gif(e)),
        },
        Route::Still => {
            let extension = match extension {
                Some(e) => e,
                None => {
                    return Err(ImportError::Video);
                },
            };
            let made = decode_still(&bytes, extension, keys);
            let ghost read = choose|read: Result<Raster, ReadError>|
                call_ensures(read_still, (&bytes, extension), read) && still_read(
                    bytes@,
                    extension@,
                    read,
                ) && #[trigger] still_made(
                    read,
                    *old(keys),
                    made,
                    *keys,
                );
            assert(still_made(read, *old(keys), made, *keys));
            match made {
                Ok(frame) => {
                    let mut report = progress;
                    let going = report(1, Some(1));
                    assert(call_ensures(progress, (1usize, Some(1usize)), going));
                    let mut frames: Vec<Frame> = Vec::new();
                    frames.push(frame);
                    proof {
                        reveal_with_fuel(key_after, 2);
                    }
                    let r: Result<Vec<Frame>, ImportError> = Ok(frames);
                    assert(one_frame(read, *old(keys), r, *keys));
                    r
                },
                Err(e) => {
                    let r: Result<Vec<Frame>, ImportError> = Err(ImportError::Still(e));
                    assert(one_frame(read, *old(keys), r, *keys));
                    r
                },
            }
        },
        Route::Video => Err(ImportError::Video),
    }
}

/// An even number no larger, two at least.
pub open spec fn evened(n: int) -> int {
    if n < 2 {
        2
    } else {
        n - n % 2
    }
}

/// ffmpeg's scalers and every encoder downstream want even dimensions.
pub fn even(n: u32) -> (r: u32)
    ensures
        r == evened(n as int),
{
    if n < 2 {
        2
    } else {
        n - n % 2
    }
}

/// `height` lines of a `w` by `h` picture, at its aspect ratio: the width,
/// rounded to the nearest pixel.
pub open spec fn width_at(w: int, h: int, height: int) -> int {
    (2 * w * height + h) / (2 * h)
}

pub open spec fn preset(w: int, h: int, height: int) -> (u32, u32) {
    (evened(width_at(w, h, height)) as u32, height as u32)
}

/// Those of the standard heights, from the `i`-th on, that fit inside the
/// source.
pub open spec fn presets(w: int, h: int, heights: Seq<u32>) -> Seq<(u32, u32)>
    decreases heights.len(),
{
    if heights.len() == 0 {
        seq![]
    } else {
        let before = presets(w, h, heights.drop_last());
        if heights.last() < h {
            before.push(preset(w, h, heights.last() as int))
        } else {
            before
        }
    }
}

/// The heights the resolution picker offers.
pub open spec fn standard_heights() -> Seq<u32> {
    seq![720, 540, 480, 360, 270]
}

/// Sizes the resolution picker offers, largest first: the standard heights that
/// fit inside the source, at the source's aspect ratio.
pub fn size_presets(width: u32, height: u32) -> (r: Vec<(u32, u32)>)
    ensures
        r@ == presets(width as int, height as int, standard_heights()),
{
    let heights: [u32; 5] = [720, 540, 480, 360, 270];
    let ghost all = standard_heights();
    assert(heights@ =~= all);
    let mut r: Vec<(u32, u32)> = Vec::new();
    let mut i: usize = 0;
    assert(all.take(0) =~= Seq::<u32>::empty());
    while i < 5
        invariant
            i <= 5,
            heights@ == all,
            all == standard_heights(),
            r@ == presets(width as int, height as int, all.take(i as int)),
        decreases 5 - i,
    {
        assert(all.take(i + 1).drop_last() =~= all.take(i as int));
        let at: u32 = heights[i];
        if at < height {
            let (w, h, a) = (width as u64, height as u64, at as u64);
            assert(at <= 720);
            assert(0 <= w * a <= 0xffff_ffff * 720) by (nonlinear_arith)
                requires
                    0 <= w <= 0xffff_ffff,
                    0 <= a <= 720,
            ;
            assert(2 * w * a == 2 * (w * a)) by (nonlinear_arith);
            let wide: u64 = (2 * (w * a) + h) / (2 * h);
            proof {
                lemma_width_fits(w as int, h as int, a as int);
            }
            r.push((even(wide as u32), at));
        }
        i = i + 1;
    }
    assert(all.take(5) =~= all);
    r
}

/// Fewer lines make a picture no wider.
proof fn lemma_width_fits(w: int, h: int, a: int)
    requires
        0 <= w,
        0 <= a < h,
    ensures
        0 <= width_at(w, h, a) <= w,
{
    assert(2 * w * a + h < (w + 1) * (2 * h)) by (nonlinear_arith)
        requires
            0 <= w,
            0 <= a < h,
    ;
    assert(0 <= 2 * w * a) by (nonlinear_arith)
        requires
            0 <= w,
            0 <= a,
    ;
    let v = width_at(w, h, a);
    vstd::arithmetic::div_mod::lemma_fundamental_div_mod(2 * w * a + h, 2 * h);
    vstd::arithmetic::div_mod::lemma_div_pos_is_pos(2 * w * a + h, 2 * h);
    if v > w {
        assert((2 * h) * v >= (w + 1) * (2 * h)) by (nonlinear_arith)
            requires
                v >= w + 1,
                h > 0,
        ;
    }
}

/// Whether a size is lower than the source, no wider than it unless it is two
/// wide, and of an even width.
pub open spec fn fits_inside(size: (u32, u32), w: u32, h: u32) -> bool {
    size.1 < h && size.0 % 2 == 0 && (size.0 <= w || size.0 == 2)
}

/// Every preset is smaller than the source and even, so that the scaler takes
/// it.
pub proof fn law_presets_fit(w: u32, h: u32, heights: Seq<u32>)
    ensures
        forall|i: int|
            0 <= i < presets(w as int, h as int, heights).len() ==> fits_inside(
                #[trigger] presets(w as int, h as int, heights)[i],
                w,
                h,
            ),
    decreases heights.len(),
{
    if heights.len() > 0 {
        law_presets_fit(w, h, heights.drop_last());
        let before = presets(w as int, h as int, heights.drop_last());
        let all = presets(w as int, h as int, heights);
        if heights.last() < h {
            let wide = width_at(w as int, h as int, heights.last() as int);
            lemma_width_fits(w as int, h as int, heights.last() as int);
            assert(evened(wide) % 2 == 0);
            assert(fits_inside(preset(w as int, h as int, heights.last() as int), w, h));
        }
        assert forall|i: int| 0 <= i < all.len() implies fits_inside(#[trigger] all[i], w, h) by {
            if i < before.len() {
                assert(all[i] == before[i]);
            }
        }
    }
}

/// The size of an import: what was asked for, made even; else the source's,
/// with its long edge capped, the other one then being `fitted` made even.
pub open spec fn import_size_of(
    source: (u32, u32),
    target: Option<(u32, u32)>,
    max_edge: Option<u32>,
    fitted: u32,
) -> (u32, u32) {
    match target {
        Some((w, h)) => (evened(w as int) as u32, evened(h as int) as u32),
        None => match max_edge {
            Some(max) => if source.0 >= source.1 && source.0 > max {
                (max, evened(fitted as int) as u32)
            } else if source.1 > max {
                (evened(fitted as int) as u32, max)
            } else {
                source
            },
            None => source,
        },
    }
}

/// The size of an import. `fitted` is the length of the short edge that keeps
/// the source's aspect ratio where the long edge is capped.
pub fn import_size(
    source: (u32, u32),
    target: Option<(u32, u32)>,
    max_edge: Option<u32>,
    fitted: u32,
) -> (r: (u32, u32))
    ensures
        r == import_size_of(source, target, max_edge, fitted),
{
    match target {
        Some((w, h)) => (even(w), even(h)),
        None => match max_edge {
            Some(max) => if source.0 >= source.1 && source.0 > max {
                (max, even(fitted))
            } else if source.1 > max {
                (even(fitted), max)
            } else {
                source
            },
            None => source,
        },
    }
}

/// How many frames of a size fit the limits: at least one, whatever the
/// memory, and no more than the frame limit.
pub open spec fn frame_cap(width: u32, height: u32, max_frames: u64, max_bytes: u64) -> int {
    let bytes = width * height * 4;
    let fits = max_bytes as int / (if bytes < 1 {
        1
    } else {
        bytes
    });
    let fits = if fits < 1 {
        1
    } else {
        fits
    };
    if max_frames < fits {
        max_frames as int
    } else {
        fits
    }
}

/// Hard frame ceiling from the RAM budget.
pub fn import_cap(width: u32, height: u32, max_frames: u64, max_bytes: u64) -> (r: u64)
    ensures
        r == frame_cap(width, height, max_frames, max_bytes),
{
    assert(0 <= width * height <= 0xffff_ffff * 0xffff_ffff) by (nonlinear_arith)
        requires
            0 <= width <= 0xffff_ffff,
            0 <= height <= 0xffff_ffff,
    ;
    let bytes: u128 = width as u128 * height as u128 * 4;
    let bytes: u128 = if bytes < 1 {
        1
    } else {
        bytes
    };
    let fits: u128 = max_bytes as u128 / bytes;
    proof {
        vstd::arithmetic::div_mod::lemma_div_is_ordered_by_denominator(
            max_bytes as int,
            1,
            bytes as int,
        );
    }
    let fits: u64 = if fits < 1 {
        1
    } else {
        fits as u64
    };
    if max_frames < fits {
        max_frames
    } else {
        fits
    }
}

/// What an import would do to a file, settled from the probe alone so the UI
/// can warn before committing to a decode that takes minutes.
#[derive(Clone, Copy, PartialEq, Eq, Debug, Structural)]
pub struct ImportPlan {
    pub width: u32,
    pub height: u32,
    /// Frames the decode will produce, when the container admits a duration.
    /// Not clamped to `cap`: an over-budget plan is refused, not trimmed, so
    /// the honest count is the one the settings actually ask for.
    pub expected: Option<u64>,
    /// Hard frame ceiling from the RAM budget.
    pub cap: u64,
}

impl ImportPlan {
    pub fn frames(&self) -> (r: Option<u64>)
        ensures
            r == self.expected,
    {
        self.expected
    }

    /// Memory the frames take, when their number is known. It has to be
    /// addressable.
    pub fn bytes(&self) -> (r: Option<u64>)
        requires
            self.expected matches Some(n) ==> n * self.width * self.height * 4 <= u64::MAX,
        ensures
            match r {
                Some(bytes) => self.expected is Some && bytes == self.expected->0 * self.width
                    * self.height * 4,
                None => self.expected is None,
            },
    {
        match self.expected {
            Some(n) => {
                let (w, h) = (self.width, self.height);
                if w == 0 || h == 0 {
                    assert(n * w * h * 4 == 0) by (nonlinear_arith)
                        requires
                            w == 0 || h == 0,
                    ;
                    return Some(0);
                }
                assert(0 <= n * w <= n * w * h) by (nonlinear_arith)
                    requires
                        0 <= n,
                        1 <= w,
                        1 <= h,
                ;
                Some(n * w as u64 * h as u64 * 4)
            },
            None => None,
        }
    }

    /// These settings need more memory than the budget allows. Import is
    /// refused until the size or the frame rate comes down: quietly dropping
    /// the end of someone's clip is not a decision to make on their behalf.
    pub fn over_budget(&self) -> (r: bool)
        ensures
            r == (self.expected matches Some(n) && n > self.cap),
    {
        match self.expected {
            Some(n) => n > self.cap,
            None => false,
        }
    }

    /// The file cannot come in as it stands: it is over budget, or its frame
    /// rate was thinned. Scaling alone does not count: every phone video gets
    /// scaled and a GIF wants it that way.
    pub fn is_reduced(&self, thinned: bool) -> (r: bool)
        ensures
            r == ((self.expected matches Some(n) && n > self.cap) || thinned),
    {
        self.over_budget() || thinned
    }
}

/// What ffprobe printed, taken apart: the picture's size, and the frame rate
/// and the duration as it wrote them.
#[derive(Debug)]
pub struct ProbeText {
    pub width: u32,
    pub height: u32,
    pub rate: Option<String>,
    pub duration: Option<String>,
}

/// The number on line `i`, or nothing.
pub open spec fn line_number(all: Seq<Seq<char>>, i: int) -> int {
    if i < all.len() {
        match parsed_number(trimmed(all[i]), u32::MAX as nat) {
            Some(n) => n as int,
            None => 0,
        }
    } else {
        0
    }
}

/// Line `i`, trimmed.
pub open spec fn line_text(all: Seq<Seq<char>>, i: int) -> Option<Seq<char>> {
    if i < all.len() {
        Some(trimmed(all[i]))
    } else {
        None
    }
}

fn number_at(all: &Vec<Vec<char>>, i: usize) -> (r: u32)
    ensures
        r == line_number(texts(all@), i as int),
{
    if i >= all.len() {
        return 0;
    }
    assert(texts(all@)[i as int] == all@[i as int]@);
    match number_of(&trim(&all[i])) {
        Some(n) => if n as u64 <= u32::MAX as u64 {
            n as u32
        } else {
            0
        },
        None => {
            assert(parsed_number(trimmed(all@[i as int]@), u32::MAX as nat) is None);
            0
        },
    }
}

fn text_at(all: &Vec<Vec<char>>, i: usize) -> (r: Option<String>)
    ensures
        match r {
            Some(s) => line_text(texts(all@), i as int) == Some(s@),
            None => line_text(texts(all@), i as int) is None,
        },
{
    if i < all.len() {
        assert(texts(all@)[i as int] == all@[i as int]@);
        Some(text_of(&trim(&all[i])))
    } else {
        None
    }
}

/// Take what ffprobe printed apart, or say that there is no video stream.
pub fn probe(output: &str) -> (r: Option<ProbeText>)
    ensures
        ({
            let all = lines(output@);
            match r {
                Some(p) => {
                    &&& p.width == line_number(all, 0) && p.width != 0
                    &&& p.height == line_number(all, 1) && p.height != 0
                    &&& line_text(all, 2) == match p.rate {
                        Some(s) => Some(s@),
                        None => None,
                    }
                    &&& line_text(all, 3) == match p.duration {
                        Some(s) => Some(s@),
                        None => None,
                    }
                },
                None => line_number(all, 0) == 0 || line_number(all, 1) == 0,
            }
        }),
{
    let all = lines_of(&chars_of(output));
    let (width, height) = (number_at(&all, 0), number_at(&all, 1));
    if width == 0 || height == 0 {
        return None;
    }
    Some(ProbeText { width, height, rate: text_at(&all, 2), duration: text_at(&all, 3) })
}

/// The text of ffmpeg's scale filter.
pub open spec fn scale_filter(w: u32, h: u32) -> Seq<char> {
    "scale="@ + decimal(w as nat) + ":"@ + decimal(h as nat)
}

/// The filters of an import: a scale where the size changes, a frame rate
/// where that does, with a comma between them; none where neither does.
pub open spec fn filter_text(
    source: (u32, u32),
    size: (u32, u32),
    rate: Option<Seq<char>>,
) -> Option<Seq<char>> {
    let scale = size != source;
    match rate {
        Some(rate) => if scale {
            Some(scale_filter(size.0, size.1) + ",fps="@ + rate)
        } else {
            Some("fps="@ + rate)
        },
        None => if scale {
            Some(scale_filter(size.0, size.1))
        } else {
            None
        },
    }
}

/// The filters of an import. `rate` is the frame rate as ffmpeg is to read
/// it, if it changes.
pub fn import_filters(source: (u32, u32), size: (u32, u32), rate: Option<&str>) -> (r: Option<
    String,
>)
    ensures
        ({
            let rate = match rate {
                Some(s) => Some(s@),
                None => None,
            };
            match r {
                Some(s) => filter_text(source, size, rate) == Some(s@),
                None => filter_text(source, size, rate) is None,
            }
        }),
{
    let scale = size.0 != source.0 || size.1 != source.1;
    let mut out: Vec<char> = Vec::new();
    if scale {
        extend(&mut out, &chars_of("scale="));
        extend(&mut out, &decimal_of(size.0 as u64));
        extend(&mut out, &chars_of(":"));
        extend(&mut out, &decimal_of(size.1 as u64));
        assert(out@ =~= scale_filter(size.0, size.1));
    }
    match rate {
        Some(rate) => {
            if scale {
                extend(&mut out, &chars_of(",fps="));
            } else {
                extend(&mut out, &chars_of("fps="));
            }
            extend(&mut out, &chars_of(rate));
            assert(!scale ==> out@ =~= "fps="@ + rate@);
            Some(text_of(&out))
        },
        None => if scale {
            Some(text_of(&out))
        } else {
            None
        },
    }
}

/// The delay a decoded frame carries until the whole decode is timed.
pub const DECODED_DELAY_CS: u16 = 4;

/// One frame of a plan, from the bytes the decoder wrote for it: taken if they
/// are exactly a picture of the plan's size, and that size is one a frame can
/// have.
pub fn take_frame(
    frames: &mut Vec<Frame>,
    plan: &ImportPlan,
    bytes: Vec<u8>,
    keys: &mut FrameKeys,
) -> (r: bool)
    ensures
        r == (fills(plan.width as int, plan.height as int, bytes@) && drawable(
            plan.width as int,
            plan.height as int,
        )),
        if r {
            &&& final(frames)@.len() == old(frames)@.len() + 1
            &&& final(frames)@.drop_last() == old(frames)@
            &&& final(frames)@.last().wf()
            &&& final(frames)@.last()@ == new_frame(
                Picture { width: plan.width, height: plan.height, data: bytes@ },
                DECODED_DELAY_CS,
                old(keys).next,
            )
            &&& final(keys).next == next_key(old(keys).next)
        } else {
            *final(frames) == *old(frames) && *final(keys) == *old(keys)
        },
{
    if !is_drawable(plan.width, plan.height) {
        return false;
    }
    match Raster::from_raw(plan.width, plan.height, bytes) {
        Some(pixels) => {
            frames.push(Frame::new(pixels, DECODED_DELAY_CS, keys));
            assert(frames@.drop_last() =~= old(frames)@);
            true
        },
        None => false,
    }
}

/// One sampled picture of a plan's size, out of what the decoder wrote: the
/// first of what it wrote. Nothing if that is too short: a seek past the end
/// returns nothing, which is the end of the sample, not a failure.
pub fn take_sample(plan: &ImportPlan, bytes: &Vec<u8>) -> (r: Option<Raster>)
    ensures
        match r {
            Some(pixels) => {
                &&& plan.width * plan.height * 4 <= bytes@.len()
                &&& pixels.wf()
                &&& pixels@ == (Picture {
                    width: plan.width,
                    height: plan.height,
                    data: bytes@.take(plan.width * plan.height * 4),
                })
            },
            None => bytes@.len() < plan.width * plan.height * 4,
        },
{
    assert(0 <= plan.width * plan.height <= 0xffff_ffff * 0xffff_ffff) by (nonlinear_arith)
        requires
            0 <= plan.width <= 0xffff_ffff,
            0 <= plan.height <= 0xffff_ffff,
    ;
    let want: u128 = plan.width as u128 * plan.height as u128 * 4;
    if (bytes.len() as u128) < want {
        return None;
    }
    let want: usize = want as usize;
    let mut data: Vec<u8> = Vec::new();
    let mut i: usize = 0;
    while i < want
        invariant
            i <= want <= bytes@.len(),
            data@ == bytes@.take(i as int),
        decreases want - i,
    {
        data.push(bytes[i]);
        i = i + 1;
        assert(data@ =~= bytes@.take(i as int));
    }
    Raster::from_raw(plan.width, plan.height, data)
}

/// Whether a decode goes on after the frame that makes `count`: not once it
/// was cancelled, and not past the cap.
pub fn keep_decoding(count: u64, cap: u64, going: bool) -> (r: bool)
    ensures
        r == (going && count < cap),
{
    going && count < cap
}

/// How a decode ended.
#[derive(Clone, Copy, PartialEq, Eq, Debug, Structural)]
pub enum Verdict {
    Done,
    /// The decoder failed.
    Failed,
    /// It decoded to zero frames.
    Empty,
}

/// How a decode ended. One that was stopped short has not failed, whatever
/// the decoder's exit says.
pub fn import_verdict(stopped: bool, success: bool, count: usize) -> (r: Verdict)
    ensures
        r == if !stopped && !success {
            Verdict::Failed
        } else if count == 0 {
            Verdict::Empty
        } else {
            Verdict::Done
        },
{
    if !stopped && !success {
        Verdict::Failed
    } else if count == 0 {
        Verdict::Empty
    } else {
        Verdict::Done
    }
}

/// The latest of the first `n` times.
pub open spec fn latest(marks: Seq<u32>, n: nat) -> u32
    decreases n,
{
    if n == 0 {
        0
    } else {
        let before = latest(marks, (n - 1) as nat);
        if marks[n - 1] > before {
            marks[n - 1]
        } else {
            before
        }
    }
}

/// The delay that takes the animation from the latest time so far to the next,
/// a hundredth of a second at least.
pub open spec fn delay_to(marks: Seq<u32>, i: int) -> u16 {
    let gap = marks[i] - latest(marks, i as nat);
    (if gap < 1 {
        1
    } else {
        gap
    }) as u16
}

/// Per-frame delays, given when each frame should end in hundredths of a
/// second, distributing the remainder so the total matches the source instead
/// of drifting.
///
/// 30fps is 3.33cs, which GIF cannot store; rounding every frame to 3cs gives a
/// 33.3fps animation that runs ahead of the recording.
pub fn delays_for_fps(marks: &Vec<u32>) -> (r: Vec<u16>)
    ensures
        r@ == Seq::new(marks@.len(), |i: int| delay_to(marks@, i)),
{
    let mut r: Vec<u16> = Vec::new();
    let mut reached: u32 = 0;
    let mut i: usize = 0;
    while i < marks.len()
        invariant
            i <= marks@.len(),
            reached == latest(marks@, i as nat),
            r@.len() == i,
            forall|k: int| 0 <= k < i ==> #[trigger] r@[k] == delay_to(marks@, k),
        decreases marks@.len() - i,
    {
        let want: u32 = marks[i];
        let gap: u32 = if want > reached {
            want - reached
        } else {
            1
        };
        r.push(#[verifier::truncate] (gap as u16));
        if want > reached {
            reached = want;
        }
        i = i + 1;
    }
    assert(r@ =~= Seq::new(marks@.len(), |i: int| delay_to(marks@, i)));
    r
}

/// The delays together.
pub open spec fn sum_of(delays: Seq<u16>) -> int
    decreases delays.len(),
{
    if delays.len() == 0 {
        0
    } else {
        sum_of(delays.drop_last()) + delays.last()
    }
}

/// Where the frames end one after the other, each within what a delay can
/// hold, the delays add up to exactly when the last one should end.
pub proof fn law_delays_do_not_drift(marks: Seq<u32>)
    requires
        forall|i: int|
            0 <= i < marks.len() ==> latest(marks, i as nat) < #[trigger] marks[i] <= latest(
                marks,
                i as nat,
            ) + u16::MAX,
    ensures
        sum_of(Seq::new(marks.len(), |i: int| delay_to(marks, i))) == latest(marks, marks.len()),
        marks.len() > 0 ==> latest(marks, marks.len()) == marks.last(),
{
    lemma_sum(marks, marks.len());
    if marks.len() > 0 {
        assert(latest(marks, (marks.len() - 1) as nat) < marks[marks.len() - 1]);
    }
}

proof fn lemma_sum(marks: Seq<u32>, n: nat)
    requires
        n <= marks.len(),
        forall|i: int|
            0 <= i < marks.len() ==> latest(marks, i as nat) < #[trigger] marks[i] <= latest(
                marks,
                i as nat,
            ) + u16::MAX,
    ensures
        sum_of(Seq::new(n, |i: int| delay_to(marks, i))) == latest(marks, n),
    decreases n,
{
    if n > 0 {
        lemma_sum(marks, (n - 1) as nat);
        let all = Seq::new(n, |i: int| delay_to(marks, i));
        assert(all.drop_last() =~= Seq::new((n - 1) as nat, |i: int| delay_to(marks, i)));
        assert(latest(marks, (n - 1) as nat) < marks[n - 1]);
    }
}

/// Give each frame its delay.
pub fn land_delays(frames: &mut Vec<Frame>, delays: &Vec<u16>)
    ensures
        final(frames)@.len() == old(frames)@.len(),
        forall|i: int|
            0 <= i < old(frames)@.len() ==> (#[trigger] final(frames)@[i])@ == if i < delays@.len() {
                old(frames)@[i]@.with_delay(delays@[i])
            } else {
                old(frames)@[i]@
            },
{
    let mut i: usize = 0;
    while i < frames.len() && i < delays.len()
        invariant
            i <= frames@.len(),
            i <= delays@.len(),
            frames@.len() == old(frames)@.len(),
            forall|k: int|
                0 <= k < frames@.len() ==> (#[trigger] frames@[k])@ == if k < i {
                    old(frames)@[k]@.with_delay(delays@[k])
                } else {
                    old(frames)@[k]@
                },
        decreases frames@.len() - i,
    {
        frames[i].delay_cs = delays[i];
        i = i + 1;
    }
}

/// The frames of a decode that has ended, each held until its mark, or how it
/// failed. One that was stopped short has not failed, whatever the decoder's
/// exit says.
pub fn import_planned(frames: Vec<Frame>, stopped: bool, success: bool, marks: &Vec<u32>) -> (r:
    Result<Vec<Frame>, Verdict>)
    ensures
        match r {
            Ok(timed) => {
                &&& stopped || success
                &&& frames@.len() > 0
                &&& timed@.len() == frames@.len()
                &&& forall|i: int|
                    0 <= i < frames@.len() ==> (#[trigger] timed@[i])@ == if i < marks@.len() {
                        frames@[i]@.with_delay(delay_to(marks@, i))
                    } else {
                        frames@[i]@
                    }
            },
            Err(Verdict::Failed) => !stopped && !success,
            Err(Verdict::Empty) => (stopped || success) && frames@.len() == 0,
            Err(Verdict::Done) => false,
        },
{
    match import_verdict(stopped, success, frames.len()) {
        Verdict::Done => {
            let mut timed = frames;
            let delays = delays_for_fps(marks);
            land_delays(&mut timed, &delays);
            Ok(timed)
        },
        other => Err(other),
    }
}

} // verus!
