//! GIF out: one global palette, exact per-frame delays.

use vstd::prelude::*;

use crate::gif_in::{gif_of, Disposal, GifView, RawView};
use crate::raster::{Picture, Raster};
use crate::single::{Single, ONE_BITS};

verus! {

#[derive(Clone, Copy, Debug)]
pub struct ExportSettings {
    /// Target width; height follows the source aspect. None keeps 100%.
    pub width: Option<u32>,
    /// 1.0 is the source speed. 2.0 halves every delay.
    pub speed: Single,
    pub colors: u16,
    pub dither: bool,
    /// None loops forever.
    pub loops: Option<u16>,
    /// gifsicle's `--lossy`; 0 turns it off.
    pub lossy: u16,
}

/// Full size and speed, every color, no dithering, forever.
pub open spec fn default_settings() -> ExportSettings {
    ExportSettings {
        width: None,
        speed: Single { bits: ONE_BITS },
        colors: 256,
        dither: false,
        loops: None,
        lossy: 0,
    }
}

impl Default for ExportSettings {
    fn default() -> (r: ExportSettings)
        ensures
            r == default_settings(),
    {
        ExportSettings {
            width: None,
            speed: Single { bits: ONE_BITS },
            colors: 256,
            dither: false,
            loops: None,
            lossy: 0,
        }
    }
}

/// Composited frames plus their delays — what the export path consumes, so the
/// size preview and the real export run the same code.
#[derive(Debug)]
pub struct Encodable {
    pub frames: Vec<(Raster, u16)>,
}

/// What a list of frames and delays holds.
pub open spec fn shots(frames: Seq<(Raster, u16)>) -> Seq<(Picture, u16)> {
    Seq::new(frames.len(), |i: int| (frames[i].0@, frames[i].1))
}

/// The color quantizer.
#[verifier::external_type_specification]
#[verifier::external_body]
pub struct ExNeuQuant(color_quant::NeuQuant);

/// The quantizer `color_quant::NeuQuant::new` trains on a sample of RGBA
/// pixels, at a sampling factor of ten.
pub uninterp spec fn trained(colors: usize, sample: Seq<u8>) -> color_quant::NeuQuant;

/// The colors of a quantizer, three bytes each.
pub uninterp spec fn palette_of(quant: color_quant::NeuQuant) -> Seq<u8>;

/// The place of the color of a quantizer that is the best match for a pixel.
pub uninterp spec fn nearest(quant: color_quant::NeuQuant, pixel: Seq<u8>) -> usize;

/// Calls `color_quant::NeuQuant::new` with a sampling factor of ten. Claimed
/// of it: the quantizer depends on the number of colors and the sample alone,
/// and has as many colors as it was asked for.
#[verifier::external_body]
pub(crate) fn train(colors: usize, sample: &Vec<u8>) -> (r: color_quant::NeuQuant)
    requires
        2 <= colors <= 256,
        sample@.len() % 4 == 0,
    ensures
        r == trained(colors, sample@),
        palette_of(r).len() == colors * 3,
{
    color_quant::NeuQuant::new(10, colors, sample)
}

/// Calls `color_quant::NeuQuant::color_map_rgb`. Claimed of it: it returns the
/// quantizer's colors.
#[verifier::external_body]
pub(crate) fn color_map(quant: &color_quant::NeuQuant) -> (r: Vec<u8>)
    ensures
        r@ == palette_of(*quant),
{
    quant.color_map_rgb()
}

/// Calls `color_quant::NeuQuant::index_of` on one RGBA pixel. Claimed of it:
/// the answer is one of the quantizer's colors and depends on the quantizer and
/// the pixel alone.
#[verifier::external_body]
pub(crate) fn index_of(quant: &color_quant::NeuQuant, pixel: &[u8; 4]) -> (r: usize)
    requires
        palette_of(*quant).len() >= 3,
    ensures
        r == nearest(*quant, pixel@),
        r * 3 + 3 <= palette_of(*quant).len(),
{
    quant.index_of(pixel)
}

/// A GIF file that is being written.
#[verifier::external_body]
pub struct GifWriter {
    inner: gif::Encoder<Vec<u8>>,
}

/// What has been written of it.
pub uninterp spec fn written(writer: GifWriter) -> Seq<u8>;

/// The bytes `gif::Encoder::write_frame` writes for a frame that fills the
/// canvas, given its delay, its transparent color and its pixels' colors.
pub uninterp spec fn frame_bytes(
    width: u16,
    height: u16,
    delay: u16,
    transparent: Option<u8>,
    indices: Seq<u8>,
) -> Seq<u8>;

/// The palette of a file that is being written: the colors it was opened with,
/// and black in the places left over; none where it was opened with none.
pub uninterp spec fn palette_in(writer: GifWriter) -> Seq<u8>;

/// The canvas of a file that is being written and the frames written so far,
/// as `gif::Decoder` reads them.
pub uninterp spec fn pending(writer: GifWriter) -> GifView;

/// The most bytes of pixels `gif::Decoder` reads into a frame.
pub const READ_LIMIT: usize = 50000000;

/// Whether a palette of this many bytes fills the places a file has for it.
pub open spec fn full_palette(len: int) -> bool {
    len == 6 || len == 12 || len == 24 || len == 48 || len == 96 || len == 192 || len == 384 || len
        == 768
}

/// The pixels of a frame, four bytes each: the colors of the palette, opaque,
/// except that the transparent one is transparent.
pub open spec fn colored(palette: Seq<u8>, transparent: Option<u8>, indices: Seq<u8>) -> Seq<u8> {
    Seq::new(
        (indices.len() * 4) as nat,
        |k: int|
            if k % 4 == 3 {
                if transparent == Some(indices[k / 4]) {
                    0u8
                } else {
                    255u8
                }
            } else {
                palette[indices[k / 4] * 3 + k % 4]
            },
    )
}

/// Whether every index is that of a color of the palette.
pub open spec fn all_colored(palette: Seq<u8>, indices: Seq<u8>) -> bool {
    forall|k: int| 0 <= k < indices.len() ==> (#[trigger] indices[k]) * 3 + 3 <= palette.len()
}

/// Whether a frame that fills a canvas can be read again: it has an area
/// within the decoder's limit, a pixel for each of its places and nothing
/// beyond the palette.
pub open spec fn legible(width: u16, height: u16, palette: Seq<u8>, indices: Seq<u8>) -> bool {
    &&& width > 0
    &&& height > 0
    &&& width * height * 4 <= READ_LIMIT
    &&& indices.len() == width * height
    &&& all_colored(palette, indices)
}

/// A frame that fills a canvas, as it is read again.
pub open spec fn whole_frame(
    width: u16,
    height: u16,
    delay: u16,
    transparent: Option<u8>,
    palette: Seq<u8>,
    indices: Seq<u8>,
) -> RawView {
    RawView {
        left: 0,
        top: 0,
        width,
        height,
        delay,
        disposal: Disposal::Keep,
        data: colored(palette, transparent, indices),
    }
}

/// A number in two bytes, the lower first.
pub open spec fn two_bytes(n: u16) -> Seq<u8> {
    seq![(n % 256) as u8, (n / 256) as u8]
}

/// How often two is doubled for a file to have places for this many colors.
pub open spec fn doublings(colors: int) -> int {
    if colors <= 2 {
        0
    } else if colors <= 4 {
        1
    } else if colors <= 8 {
        2
    } else if colors <= 16 {
        3
    } else if colors <= 32 {
        4
    } else if colors <= 64 {
        5
    } else if colors <= 128 {
        6
    } else {
        7
    }
}

/// Two, doubled `n` times.
pub open spec fn doubled(n: int) -> int
    decreases n,
{
    if n <= 0 {
        2
    } else {
        2 * doubled(n - 1)
    }
}

/// What a file starts with: the signature, the size of the canvas, how many
/// colors there are places for, and the palette, with black in the places left
/// over.
pub open spec fn head_bytes(width: u16, height: u16, palette: Seq<u8>) -> Seq<u8> {
    let colors = palette.len() as int / 3;
    let n = doublings(colors);
    seq![71u8, 73, 70, 56, 57, 97] + two_bytes(width) + two_bytes(height) + seq![
        (0x80 + 0x11 * n) as u8,
        0,
        0,
    ] + palette.take(3 * colors) + Seq::new((3 * (doubled(n) - colors)) as nat, |k: int| 0u8)
}

/// The block that says how often a GIF repeats: without end for none, and no
/// block at all for zero times.
pub open spec fn repeat_bytes(loops: Option<u16>) -> Seq<u8> {
    let name = seq![78u8, 69, 84, 83, 67, 65, 80, 69, 50, 46, 48];
    match loops {
        Some(0) => seq![],
        Some(n) => seq![0x21u8, 0xff, 11] + name + seq![3u8, 1] + two_bytes(n) + seq![0u8],
        None => seq![0x21u8, 0xff, 11] + name + seq![3u8, 1] + two_bytes(0) + seq![0u8],
    }
}

/// Calls `gif::Encoder::new` on an empty buffer. Claimed of it: it succeeds on
/// a palette of up to 256 colors and on no larger one; a writer it returns has
/// written the head of the file; it has the canvas asked for and no frame yet,
/// and the palette, where that fills its places.
#[verifier::external_body]
pub(crate) fn open_writer(width: u16, height: u16, palette: &Vec<u8>) -> (r: Result<GifWriter, String>)
    ensures
        r is Ok <==> palette@.len() as int / 3 <= 256,
        r matches Ok(w) ==> written(w) == head_bytes(width, height, palette@),
        r matches Ok(w) ==> pending(w) == (GifView { width, height, frames: seq![], broken: false }),
        r matches Ok(w) ==> full_palette(palette@.len() as int) ==> palette_in(w) == palette@,
{
    match gif::Encoder::new(Vec::new(), width, height, palette) {
        Ok(inner) => Ok(GifWriter { inner }),
        Err(e) => Err(e.to_string()),
    }
}

/// Calls `gif::Encoder::set_repeat`, on a writer into a buffer. Claimed of it:
/// it succeeds, and has written the repeat block and nothing else.
#[verifier::external_body]
pub(crate) fn write_repeat(writer: &mut GifWriter, loops: Option<u16>) -> (r: Result<(), String>)
    ensures
        r is Ok,
        written(*final(writer)) == written(*old(writer)) + repeat_bytes(loops),
        pending(*final(writer)) == pending(*old(writer)),
        palette_in(*final(writer)) == palette_in(*old(writer)),
{
    let repeat = match loops {
        None => gif::Repeat::Infinite,
        Some(n) => gif::Repeat::Finite(n),
    };
    writer.inner.set_repeat(repeat).map_err(|e| e.to_string())
}

/// Why a frame was not written.
#[derive(Debug)]
pub enum FrameError {
    /// There is no memory for it.
    NoMemory,
    /// The encoder does not take it, and says why.
    Refused(String),
}

/// Calls `gif::Encoder::write_frame` with a frame of the canvas size, on a
/// writer into a buffer. Claimed of it: where there are too few pixels it
/// refuses the frame; where there are enough and the file has a palette it
/// succeeds unless it gets no memory, which is left to the machine. Where it
/// succeeds it has written the frame's bytes, which depend on what the frame is
/// given alone; and a frame that can be read again is then read with its pixels
/// and its delay, after the frames before it.
#[verifier::external_body]
pub(crate) fn write_frame(
    writer: &mut GifWriter,
    width: u16,
    height: u16,
    delay: u16,
    transparent: Option<u8>,
    indices: Vec<u8>,
) -> (r: Result<(), FrameError>)
    requires
        (width > 0 && height > 0) || indices@.len() == 0,
    ensures
        indices@.len() < width * height ==> r matches Err(FrameError::Refused(_)),
        r matches Err(FrameError::Refused(_)) ==> indices@.len() < width * height || palette_in(
            *old(writer),
        ).len() == 0,
        r is Ok ==> {
            let (before, after) = (pending(*old(writer)), pending(*final(writer)));
            let palette = palette_in(*old(writer));
            &&& written(*final(writer)) == written(*old(writer)) + frame_bytes(
                width,
                height,
                delay,
                transparent,
                indices@,
            )
            &&& palette_in(*final(writer)) == palette
            &&& legible(width, height, palette, indices@) && !before.broken ==> after == (GifView {
                frames: before.frames.push(
                    whole_frame(width, height, delay, transparent, palette, indices@),
                ),
                ..before
            })
        },
{
    let frame = gif::Frame { width, height, delay, transparent, buffer: indices.into(), ..Default::default() };
    match writer.inner.write_frame(&frame) {
        Ok(()) => Ok(()),
        Err(gif::EncodingError::OutOfMemory) => Err(FrameError::NoMemory),
        Err(e) => Err(FrameError::Refused(e.to_string())),
    }
}

/// Calls `gif::Encoder::into_inner`, on a writer into a buffer. Claimed of it:
/// it succeeds, having written the trailer, a semicolon, and returns all that
/// was written; and a decoder opened on that reads the frames that were
/// written, if there are any.
#[verifier::external_body]
pub(crate) fn finish(writer: GifWriter) -> (r: Result<Vec<u8>, String>)
    ensures
        r is Ok,
        r matches Ok(bytes) ==> bytes@ == written(writer).push(0x3b),
        r matches Ok(bytes) ==> pending(writer).frames.len() > 0 ==> gif_of(bytes@) == Some(
            pending(writer),
        ),
{
    writer.inner.into_inner().map_err(|e| e.to_string())
}

/// How far it is from `at` to `end`, or nothing past it.
pub open spec fn ahead_of(end: int, at: int) -> int {
    if at < end {
        end - at
    } else {
        0
    }
}

/// Every `stride`-th pixel of a picture's data, from pixel `n` on.
pub open spec fn strided(data: Seq<u8>, stride: int, n: int) -> Seq<u8>
    decreases ahead_of(data.len() as int, n * 4),
{
    if stride < 1 || n < 0 || n * 4 + 4 > data.len() {
        seq![]
    } else {
        data.subrange(n * 4, n * 4 + 4) + strided(data, stride, n + stride)
    }
}

/// The pixels of every `step`-th frame together, from frame `i` on.
pub open spec fn picked_pixels(frames: Seq<(Picture, u16)>, step: int, i: int) -> int
    decreases ahead_of(frames.len() as int, i),
{
    if step < 1 || i < 0 || i >= frames.len() {
        0
    } else {
        frames[i].0.data.len() / 4 + picked_pixels(frames, step, i + step)
    }
}

/// Every `stride`-th pixel of every `step`-th frame, from frame `i` on.
pub open spec fn picked_bytes(
    frames: Seq<(Picture, u16)>,
    step: int,
    stride: int,
    i: int,
) -> Seq<u8>
    decreases ahead_of(frames.len() as int, i),
{
    if step < 1 || i < 0 || i >= frames.len() {
        seq![]
    } else {
        strided(frames[i].0.data, stride, 0) + picked_bytes(frames, step, stride, i + step)
    }
}

/// How far apart the frames of the sample are.
pub open spec fn sample_step(count: int) -> int {
    if count <= 16 {
        1
    } else {
        (count + 15) / 16
    }
}

/// The sample takes no more than 16 frames: every `sample_step`-th of so many.
pub proof fn law_sample_takes_few_frames(count: int)
    requires
        0 <= count,
    ensures
        count <= 16 * sample_step(count),
        sample_step(count) >= 1,
{
}

/// How far apart the pixels of the sample are.
pub open spec fn sample_stride(pixels: int) -> int {
    if pixels / 1000000 < 1 {
        1
    } else {
        pixels / 1000000
    }
}

/// The pixels a palette is made of: evenly spaced frames, strided so the
/// sample stays around a megapixel; one black pixel if there are none.
pub open spec fn sampled(frames: Seq<(Picture, u16)>) -> Seq<u8> {
    let step = sample_step(frames.len() as int);
    let stride = sample_stride(picked_pixels(frames, step, 0));
    let bytes = picked_bytes(frames, step, stride, 0);
    if bytes.len() == 0 {
        seq![0u8, 0, 0, 255]
    } else {
        bytes
    }
}

proof fn lemma_strided(data: Seq<u8>, stride: int, n: int)
    ensures
        strided(data, stride, n).len() % 4 == 0,
    decreases ahead_of(data.len() as int, n * 4),
{
    if !(stride < 1 || n < 0 || n * 4 + 4 > data.len()) {
        lemma_strided(data, stride, n + stride);
    }
}

proof fn lemma_picked_bytes(frames: Seq<(Picture, u16)>, step: int, stride: int, i: int)
    ensures
        picked_bytes(frames, step, stride, i).len() % 4 == 0,
    decreases ahead_of(frames.len() as int, i),
{
    if !(step < 1 || i < 0 || i >= frames.len()) {
        lemma_strided(frames[i].0.data, stride, 0);
        lemma_picked_bytes(frames, step, stride, i + step);
    }
}

/// Up to 16 evenly-spaced frames, strided so the sample stays around a
/// megapixel. A global palette built from one frame flatters the preview and
/// then fails to match the export.
pub fn sample(frames: &Vec<(Raster, u16)>) -> (r: Vec<u8>)
    requires
        picked_pixels(shots(frames@), 1, 0) <= usize::MAX,
        forall|i: int| 0 <= i < frames@.len() ==> (#[trigger] frames@[i]).0.wf(),
    ensures
        r@ == sampled(shots(frames@)),
        r@.len() % 4 == 0,
{
    let ghost all = shots(frames@);
    let count: usize = frames.len();
    let step: usize = if count <= 16 {
        1
    } else if count % 16 == 0 {
        count / 16
    } else {
        count / 16 + 1
    };
    let mut total: usize = 0;
    let mut i: usize = 0;
    proof {
        lemma_fewer_pixels(all, step as int, 0);
    }
    while i < count
        invariant
            count == frames@.len(),
            all == shots(frames@),
            step >= 1,
            step <= count || count == 0,
            step == sample_step(count as int),
            total + picked_pixels(all, step as int, i as int) == picked_pixels(
                all,
                step as int,
                0,
            ),
            picked_pixels(all, step as int, 0) <= usize::MAX,
        decreases count - i,
    {
        proof {
            lemma_pixels_positive(all, step as int, i + step);
            assert(frames@[i as int].0.data@.len() == all[i as int].0.data.len());
        }
        total = total + frames[i].0.data.len() / 4;
        if step > count - i {
            assert(picked_pixels(all, step as int, i + step) == 0);
            i = count;
        } else {
            i = i + step;
        }
    }
    assert(total == picked_pixels(all, step as int, 0));
    let stride: usize = if total / 1000000 < 1 {
        1
    } else {
        total / 1000000
    };
    let mut out: Vec<u8> = Vec::new();
    let mut i: usize = 0;
    let ghost want = picked_bytes(all, step as int, stride as int, 0);
    assert(out@ + want =~= want);
    while i < count
        invariant
            count == frames@.len(),
            all == shots(frames@),
            step >= 1,
            stride >= 1,
            want == picked_bytes(all, step as int, stride as int, 0),
            out@ + picked_bytes(all, step as int, stride as int, i as int) == want,
        decreases count - i,
    {
        let ghost before = out@;
        let ghost rest = picked_bytes(all, step as int, stride as int, i as int);
        push_strided(&mut out, &frames[i].0.data, stride);
        assert(out@ + picked_bytes(all, step as int, stride as int, i + step) =~= before + rest);
        if step > count - i {
            assert(picked_bytes(all, step as int, stride as int, i + step) =~= seq![]);
            assert(out@ =~= want);
            i = count;
        } else {
            i = i + step;
        }
        assert(out@ + picked_bytes(all, step as int, stride as int, i as int) =~= want);
    }
    assert(out@ + picked_bytes(all, step as int, stride as int, i as int) =~= out@);
    proof {
        lemma_picked_bytes(all, step as int, stride as int, 0);
    }
    if out.len() == 0 {
        out.push(0);
        out.push(0);
        out.push(0);
        out.push(255);
        assert(out@ =~= seq![0u8, 0, 0, 255]);
    }
    out
}

fn push_strided(out: &mut Vec<u8>, data: &Vec<u8>, stride: usize)
    requires
        stride >= 1,
    ensures
        final(out)@ == old(out)@ + strided(data@, stride as int, 0),
{
    let pixels: usize = data.len() / 4;
    let mut n: usize = 0;
    let ghost want = old(out)@ + strided(data@, stride as int, 0);
    while n < pixels
        invariant
            pixels == data@.len() / 4,
            stride >= 1,
            out@ + strided(data@, stride as int, n as int) == want,
        decreases pixels - n,
    {
        let ghost before = out@;
        let ghost rest = strided(data@, stride as int, n as int);
        assert(data.len() == data@.len());
        out.push(data[n * 4]);
        out.push(data[n * 4 + 1]);
        out.push(data[n * 4 + 2]);
        out.push(data[n * 4 + 3]);
        assert(out@ =~= before + data@.subrange(n * 4, n * 4 + 4));
        assert(out@ + strided(data@, stride as int, n + stride) =~= before + rest);
        if stride > pixels - n {
            assert(strided(data@, stride as int, n + stride) =~= seq![]);
            n = pixels;
            assert(strided(data@, stride as int, n as int) =~= seq![]);
        } else {
            n = n + stride;
        }
    }
    assert(strided(data@, stride as int, n as int) =~= seq![]);
    assert(out@ + strided(data@, stride as int, n as int) =~= out@);
}

proof fn lemma_pixels_positive(frames: Seq<(Picture, u16)>, step: int, i: int)
    ensures
        0 <= picked_pixels(frames, step, i),
    decreases ahead_of(frames.len() as int, i),
{
    if !(step < 1 || i < 0 || i >= frames.len()) {
        lemma_pixels_positive(frames, step, i + step);
    }
}

/// Fewer frames have fewer pixels.
proof fn lemma_fewer_pixels(frames: Seq<(Picture, u16)>, step: int, i: int)
    requires
        step >= 1,
        0 <= i,
    ensures
        picked_pixels(frames, step, i) <= picked_pixels(frames, 1, i),
    decreases ahead_of(frames.len() as int, i),
{
    if i < frames.len() {
        lemma_fewer_pixels(frames, step, i + step);
        lemma_later_pixels(frames, i + 1, i + step);
    }
}

proof fn lemma_later_pixels(frames: Seq<(Picture, u16)>, i: int, j: int)
    requires
        0 <= i <= j,
    ensures
        picked_pixels(frames, 1, j) <= picked_pixels(frames, 1, i),
    decreases j - i,
{
    lemma_pixels_positive(frames, 1, j);
    if i < j {
        if i < frames.len() {
            lemma_later_pixels(frames, i + 1, j);
        } else {
            assert(picked_pixels(frames, 1, j) == 0);
        }
    }
}

} // verus!
