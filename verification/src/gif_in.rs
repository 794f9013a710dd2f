//! GIF in.
//!
//! Existing GIFs are decoded with the `gif` crate rather than ffmpeg: ffmpeg
//! normalizes toward constant frame rate and discards per-frame delays and
//! disposal methods, which is exactly the data an editor has to preserve.

use vstd::prelude::*;

use crate::canvas::key_after;
use crate::document::views;
use crate::model::{lemma_drawable, new_frame, Frame, FrameKeys, FrameView};
use crate::raster::{
    column_of, lemma_byte_place, lemma_offset_inside, offset, row_of, Picture, Raster,
};

verus! {

/// What becomes of a frame's patch once it has been shown.
#[derive(Clone, Copy, PartialEq, Eq, Debug, Structural)]
pub enum Disposal {
    Any,
    Keep,
    Background,
    Previous,
}

/// A frame as the file has it: a patch of the canvas, four bytes a pixel.
#[derive(Debug)]
pub struct RawFrame {
    pub left: u16,
    pub top: u16,
    pub width: u16,
    pub height: u16,
    pub delay: u16,
    pub disposal: Disposal,
    pub data: Vec<u8>,
}

/// What a `RawFrame` holds.
pub struct RawView {
    pub left: u16,
    pub top: u16,
    pub width: u16,
    pub height: u16,
    pub delay: u16,
    pub disposal: Disposal,
    pub data: Seq<u8>,
}

impl View for RawFrame {
    type V = RawView;

    open spec fn view(&self) -> RawView {
        RawView {
            left: self.left,
            top: self.top,
            width: self.width,
            height: self.height,
            delay: self.delay,
            disposal: self.disposal,
            data: self.data@,
        }
    }
}

impl RawView {
    /// Four bytes for each pixel of the patch.
    pub open spec fn wf(self) -> bool {
        self.data.len() == self.width * self.height * 4
    }

    /// Whether the patch lies on pixel (`x`, `y`) of the canvas.
    pub open spec fn lies_on(self, x: int, y: int) -> bool {
        self.left <= x < self.left + self.width && self.top <= y < self.top + self.height
    }

    /// Byte `c` of the patch at pixel (`x`, `y`) of the canvas.
    pub open spec fn byte_on(self, x: int, y: int, c: int) -> u8 {
        self.data[offset(self.width as int, x - self.left, y - self.top) + c]
    }
}

/// What a GIF file holds: its canvas, its frames up to its end or the first
/// one that cannot be read, and which of the two comes after them.
pub struct GifView {
    pub width: u16,
    pub height: u16,
    pub frames: Seq<RawView>,
    pub broken: bool,
}

/// An open GIF file of which some frames have been read.
#[verifier::external_body]
pub struct GifReader {
    inner: gif::Decoder<std::io::Cursor<Vec<u8>>>,
}

/// What is left to read of an open file.
pub uninterp spec fn left_of(reader: GifReader) -> GifView;

/// What `gif::Decoder` reads out of these bytes, with RGBA output and
/// otherwise default options: nothing, if it refuses their header.
pub uninterp spec fn gif_of(bytes: Seq<u8>) -> Option<GifView>;

/// Calls `gif::DecodeOptions::read_info` on the bytes, for RGBA output.
/// Claimed of it: whether it succeeds, and what the decoder it returns goes on
/// to read, depend on the bytes alone. The text of the error is not claimed.
///
/// A want of memory is left aside. The decoder's buffers for pixels end the
/// program for it, like any other allocation; what it asks for with an error to
/// return is a color table or a block of metadata. The encoder asks for as much
/// as a frame takes in that way, which is why `write_frame` speaks of it.
#[verifier::external_body]
fn open_gif(bytes: Vec<u8>) -> (r: Result<GifReader, String>)
    ensures
        match r {
            Ok(reader) => gif_of(bytes@) == Some(left_of(reader)),
            Err(_) => gif_of(bytes@) is None,
        },
{
    let mut options = gif::DecodeOptions::new();
    options.set_color_output(gif::ColorOutput::RGBA);
    match options.read_info(std::io::Cursor::new(bytes)) {
        Ok(inner) => Ok(GifReader { inner }),
        Err(e) => Err(e.to_string()),
    }
}

/// Calls `gif::Decoder::width` and `gif::Decoder::height`. Claimed of them:
/// they are the canvas size of the file.
#[verifier::external_body]
fn canvas_of(reader: &GifReader) -> (r: (u16, u16))
    ensures
        r == (left_of(*reader).width, left_of(*reader).height),
{
    (reader.inner.width(), reader.inner.height())
}

/// Calls `gif::Decoder::read_next_frame`. Claimed of it: it returns the next
/// of the frames left, whose buffer holds four bytes for each pixel of the
/// patch; after the last one it fails if the file is broken there, and returns
/// none if it is not. The canvas size stays. The text of the error, and what a
/// reader does after it failed, are not claimed.
#[verifier::external_body]
fn next_frame(reader: &mut GifReader) -> (r: Result<Option<RawFrame>, String>)
    ensures
        match r {
            Ok(Some(frame)) => {
                let before = left_of(*old(reader));
                &&& before.frames.len() > 0
                &&& frame@ == before.frames[0]
                &&& frame@.wf()
                &&& left_of(*final(reader)) == (GifView { frames: before.frames.skip(1), ..before })
            },
            Ok(None) => left_of(*old(reader)).frames.len() == 0 && !left_of(*old(reader)).broken,
            Err(_) => left_of(*old(reader)).frames.len() == 0 && left_of(*old(reader)).broken,
        },
{
    let frame = reader.inner.read_next_frame().map_err(|e| e.to_string())?;
    Ok(
        frame.map(|f| RawFrame {
            left: f.left, top: f.top, width: f.width, height: f.height, delay: f.delay,
            disposal: match f.dispose {
                gif::DisposalMethod::Any => Disposal::Any,
                gif::DisposalMethod::Keep => Disposal::Keep,
                gif::DisposalMethod::Background => Disposal::Background,
                gif::DisposalMethod::Previous => Disposal::Previous,
            },
            data: f.buffer.to_vec(),
        }),
    )
}

/// The canvas with the patch drawn on it. Transparent pixels leave what is
/// underneath.
pub open spec fn drawn(canvas: Picture, raw: RawView) -> Picture {
    Picture {
        data: Seq::new(canvas.data.len(), |k: int| drawn_byte(canvas, raw, k)),
        ..canvas
    }
}

pub open spec fn drawn_byte(canvas: Picture, raw: RawView, k: int) -> u8 {
    let (x, y) = (column_of(canvas.width as int, k), row_of(canvas.width as int, k));
    if raw.lies_on(x, y) && raw.byte_on(x, y, 3) != 0 {
        raw.byte_on(x, y, k % 4)
    } else {
        canvas.data[k]
    }
}

/// The canvas with the patch's place cleared.
pub open spec fn cleared(canvas: Picture, raw: RawView) -> Picture {
    Picture {
        data: Seq::new(
            canvas.data.len(),
            |k: int|
                if raw.lies_on(
                    column_of(canvas.width as int, k),
                    row_of(canvas.width as int, k),
                ) {
                    0
                } else {
                    canvas.data[k]
                },
        ),
        ..canvas
    }
}

/// The canvas the next frame is drawn on, `canvas` being the one this frame
/// was drawn on.
pub open spec fn disposed(canvas: Picture, raw: RawView) -> Picture {
    match raw.disposal {
        Disposal::Background => cleared(drawn(canvas, raw), raw),
        Disposal::Previous => canvas,
        _ => drawn(canvas, raw),
    }
}

/// The canvas after the first `n` frames.
pub open spec fn canvas_after(gif: GifView, n: nat) -> Picture
    decreases n,
{
    if n == 0 {
        Picture::blank(gif.width as u32, gif.height as u32)
    } else {
        disposed(canvas_after(gif, (n - 1) as nat), gif.frames[n - 1])
    }
}

/// At least a hundredth of a second.
pub open spec fn playable(delay: u16) -> u16 {
    if delay < 1 {
        1
    } else {
        delay
    }
}

/// The first `n` frames, each on a canvas of its own.
pub open spec fn composed(gif: GifView, n: nat, key: u64) -> Seq<FrameView> {
    Seq::new(
        n,
        |i: int|
            new_frame(
                drawn(canvas_after(gif, i as nat), gif.frames[i]),
                playable(gif.frames[i].delay),
                key_after(key, i as nat),
            ),
    )
}

/// Why a GIF was not decoded.
#[derive(Debug)]
pub enum DecodeError {
    /// The header could not be read.
    Header(String),
    /// A frame could not be read.
    Frame(String),
    /// The file decoded to zero frames.
    Empty,
}

impl Raster {
    /// The canvas with the patch drawn on it, or with its place cleared.
    fn patched(&self, raw: &RawFrame, clear: bool) -> (r: Raster)
        requires
            self.wf(),
            raw@.wf(),
        ensures
            r.wf(),
            r@ == if clear {
                cleared(self@, raw@)
            } else {
                drawn(self@, raw@)
            },
    {
        let (w, h) = (self.width, self.height);
        let ghost want = if clear {
            cleared(self@, raw@)
        } else {
            drawn(self@, raw@)
        };
        let mut data: Vec<u8> = Vec::new();
        let mut y: u32 = 0;
        assert(0 * (w as int) * 4 == 0) by (nonlinear_arith);
        assert(self.data.len() == self.data@.len());
        assert(raw.data.len() == raw.data@.len());
        while y < h
            invariant
                self.wf(),
                raw@.wf(),
                w == self.width,
                h == self.height,
                self.data.len() == self.data@.len(),
                raw.data.len() == raw.data@.len(),
                want == if clear {
                    cleared(self@, raw@)
                } else {
                    drawn(self@, raw@)
                },
                y <= h,
                data@.len() == offset(w as int, 0, y as int),
                forall|k: int| 0 <= k < data@.len() ==> #[trigger] data@[k] == want.data[k],
            decreases h - y,
        {
            let mut x: u32 = 0;
            while x < w
                invariant
                    self.wf(),
                    raw@.wf(),
                    w == self.width,
                    h == self.height,
                    self.data.len() == self.data@.len(),
                    raw.data.len() == raw.data@.len(),
                    want == if clear {
                        cleared(self@, raw@)
                    } else {
                        drawn(self@, raw@)
                    },
                    x <= w,
                    y < h,
                    data@.len() == offset(w as int, x as int, y as int),
                    forall|k: int| 0 <= k < data@.len() ==> #[trigger] data@[k] == want.data[k],
                decreases w - x,
            {
                proof {
                    lemma_byte_place(w as int, x as int, y as int, 0);
                    lemma_byte_place(w as int, x as int, y as int, 1);
                    lemma_byte_place(w as int, x as int, y as int, 2);
                    lemma_byte_place(w as int, x as int, y as int, 3);
                    lemma_offset_inside(w as int, h as int, x as int, y as int);
                    crate::raster::lemma_row_start(w as int, x as int, y as int);
                }
                let at: usize = (y as usize * w as usize + x as usize) * 4;
                let (left, top) = (raw.left as u32, raw.top as u32);
                let inside = left <= x && x - left < raw.width as u32 && top <= y && y - top
                    < raw.height as u32;
                assert(inside == raw@.lies_on(x as int, y as int));
                let mut from_patch = false;
                let mut i: usize = 0;
                if inside && !clear {
                    proof {
                        lemma_offset_inside(
                            raw.width as int,
                            raw.height as int,
                            x - left,
                            y - top,
                        );
                        crate::raster::lemma_row_start(raw.width as int, x - left, y - top);
                    }
                    i = ((y - top) as usize * raw.width as usize + (x - left) as usize) * 4;
                    from_patch = raw.data[i + 3] != 0;
                }
                if inside && clear {
                    data.push(0);
                    data.push(0);
                    data.push(0);
                    data.push(0);
                } else if from_patch {
                    data.push(raw.data[i]);
                    data.push(raw.data[i + 1]);
                    data.push(raw.data[i + 2]);
                    data.push(raw.data[i + 3]);
                } else {
                    data.push(self.data[at]);
                    data.push(self.data[at + 1]);
                    data.push(self.data[at + 2]);
                    data.push(self.data[at + 3]);
                }
                x = x + 1;
            }
            assert(offset(w as int, w as int, y as int) == offset(w as int, 0, y + 1))
                by (nonlinear_arith);
            y = y + 1;
        }
        assert(offset(w as int, 0, h as int) == w * h * 4) by (nonlinear_arith);
        let r = Raster { width: w, height: h, data };
        assert(r@.data =~= want.data);
        r
    }

    /// The same picture again.
    pub fn copy(&self) -> (r: Raster)
        ensures
            r@ == self@,
    {
        let mut data: Vec<u8> = Vec::new();
        let mut i: usize = 0;
        while i < self.data.len()
            invariant
                i <= self.data@.len(),
                data@ == self.data@.take(i as int),
            decreases self.data@.len() - i,
        {
            data.push(self.data[i]);
            i = i + 1;
            assert(data@ =~= self.data@.take(i as int));
        }
        assert(self.data@.take(i as int) =~= self.data@);
        Raster { width: self.width, height: self.height, data }
    }
}

/// A reader stands after the first `n` frames of `gif`.
spec fn stands_at(reader: GifReader, gif: GifView, n: int) -> bool {
    left_of(reader) == (GifView { frames: gif.frames.skip(n), ..gif })
}

/// Whether `r` is what decoding these bytes comes to, reported to `progress`
/// frame by frame, with `key` the next frame key.
pub open spec fn decoded<P: FnMut(usize, Option<usize>) -> bool>(
    bytes: Seq<u8>,
    progress: P,
    key: u64,
    r: Result<Vec<Frame>, DecodeError>,
) -> bool {
    match gif_of(bytes) {
        None => r matches Err(DecodeError::Header(_)),
        Some(gif) => match r {
            Ok(frames) => {
                let n = frames@.len();
                &&& 1 <= n <= gif.frames.len()
                &&& views(frames@) == composed(gif, n, key)
                &&& forall|i: int| 0 <= i < n ==> (#[trigger] frames@[i]).wf()
                &&& forall|k: usize|
                    1 <= k < n ==> #[trigger] call_ensures(
                        progress,
                        (k, None::<usize>),
                        true,
                    )
                &&& call_ensures(progress, (n as usize, None::<usize>), false) || (n
                    == gif.frames.len() && !gif.broken && call_ensures(
                    progress,
                    (n as usize, None::<usize>),
                    true,
                ))
            },
            Err(DecodeError::Empty) => gif.frames.len() == 0 && !gif.broken,
            Err(DecodeError::Frame(_)) => gif.broken && forall|k: usize|
                1 <= k <= gif.frames.len() ==> #[trigger] call_ensures(
                    progress,
                    (k, None::<usize>),
                    true,
                ),
            Err(DecodeError::Header(_)) => false,
        },
    }
}

/// Decode to full-canvas RGBA frames, honoring disposal so each frame stands
/// alone in the document. `progress` gets the frame count as it grows; a GIF
/// header carries no frame total, so there is nothing to estimate with, and
/// returning false stops the decode where it stands.
///
/// A canvas of the largest size the format allows must be addressable. That
/// memory can run short is left aside, as `open_gif` says.
pub fn decode<P: FnMut(usize, Option<usize>) -> bool>(
    bytes: Vec<u8>,
    progress: P,
    keys: &mut FrameKeys,
) -> (r: Result<Vec<Frame>, DecodeError>)
    requires
        0xffff * 0xffff * 4 <= usize::MAX,
        forall|k: usize, total: Option<usize>| #[trigger] call_requires(progress, (k, total)),
    ensures
        decoded(bytes@, progress, old(keys).next, r),
        r matches Ok(frames) ==> final(keys).next == key_after(old(keys).next, frames@.len()),
{
    let ghost all = gif_of(bytes@);
    let mut reader = match open_gif(bytes) {
        Ok(reader) => reader,
        Err(e) => {
            return Err(DecodeError::Header(e));
        },
    };
    let ghost gif = all->0;
    let mut report = progress;
    let (w, h) = canvas_of(&reader);
    assert(w * h * 4 <= 0xffff * 0xffff * 4) by (nonlinear_arith)
        requires
            w <= 0xffff,
            h <= 0xffff,
    ;
    let mut canvas = Raster::blank(w as u32, h as u32);
    let mut frames: Vec<Frame> = Vec::new();
    assert(gif.frames.skip(0) =~= gif.frames);
    assert(views(frames@) =~= composed(gif, 0, old(keys).next));
    loop
        invariant
            all == gif_of(bytes@),
            all == Some(gif),
            report == progress,
            w == gif.width,
            h == gif.height,
            stands_at(reader, gif, frames@.len() as int),
            frames@.len() <= gif.frames.len(),
            canvas.wf(),
            canvas.width == w,
            canvas.height == h,
            canvas@ == canvas_after(gif, frames@.len()),
            views(frames@) == composed(gif, frames@.len(), old(keys).next),
            keys.next == key_after(old(keys).next, frames@.len()),
            forall|i: int| 0 <= i < frames@.len() ==> (#[trigger] frames@[i]).wf(),
            forall|k: usize, total: Option<usize>| #[trigger] call_requires(progress, (k, total)),
            forall|k: usize|
                1 <= k <= frames@.len() ==> #[trigger] call_ensures(
                    progress,
                    (k, None::<usize>),
                    true,
                ),
        decreases gif.frames.len() - frames@.len(),
    {
        assert(gif.frames.skip(frames@.len() as int).len() == gif.frames.len() - frames@.len());
        let raw = match next_frame(&mut reader) {
            Ok(Some(raw)) => raw,
            Ok(None) => {
                assert(frames@.len() == gif.frames.len());
                return if frames.len() == 0 {
                    Err(DecodeError::Empty)
                } else {
                    Ok(frames)
                };
            },
            Err(e) => {
                assert(frames@.len() == gif.frames.len());
                return Err(DecodeError::Frame(e));
            },
        };
        let ghost n = frames@.len();
        let ghost before = frames@;
        assert(gif.frames.skip(n as int)[0] == gif.frames[n as int]);
        assert(gif.frames.skip(n as int).skip(1) =~= gif.frames.skip(n as int + 1));
        let shown = canvas.patched(&raw, false);
        let delay: u16 = if raw.delay < 1 {
            1
        } else {
            raw.delay
        };
        let next = match raw.disposal {
            Disposal::Background => shown.patched(&raw, true),
            Disposal::Previous => canvas,
            _ => shown.copy(),
        };
        proof {
            lemma_drawable(shown.width as int, shown.height as int);
        }
        let frame = Frame::new(shown, delay, keys);
        frames.push(frame);
        assert(views(frames@) =~= composed(gif, n + 1, old(keys).next)) by {
            assert(views(frames@) =~= views(before).push(frame@));
        }
        let going = report(frames.len(), None);
        if !going {
            return Ok(frames);
        }
        canvas = next;
    }
}

} // verus!
