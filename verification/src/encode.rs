//! Writing a GIF, and measuring what one would weigh.

use vstd::prelude::*;

use crate::dither::{has_color, index_frame, indexed};
use crate::document::{DocView, Document};
use crate::gif_in::{gif_of, GifView, RawView};
use crate::gif_out::{
    all_colored, color_map, default_settings, finish, frame_bytes, head_bytes, open_writer,
    palette_in, palette_of, pending, picked_pixels, repeat_bytes, sample, sampled, shots, train,
    trained, whole_frame, write_frame, write_repeat, written, Encodable, ExportSettings, FrameError,
    READ_LIMIT,
};
use crate::import::ImportPlan;
use crate::model::Overlay;
use crate::raster::{resizable, scale, scaled, Picture, Raster};
use crate::render::{composite_all, composited, keeps_size};
use crate::selection::{frames_from, run_of};

verus! {

/// Frames a size estimate encodes. The encoder writes every frame full-canvas
/// against one global palette, so a frame's cost does not depend on its
/// neighbours and a spread of eight extrapolates well.
pub const ESTIMATE_SAMPLES: usize = 8;

/// Header, logical screen descriptor and the global palette, paid once for the
/// whole file. A 256-colour palette is 768 bytes; the rest is fixed-size
/// records. Only the extrapolation uses this, and only to avoid charging it
/// once per frame.
pub const HEADER_BYTES: usize = 800;

/// Why a GIF was not written.
#[derive(Debug)]
pub enum EncodeError {
    /// There is nothing to export.
    Empty,
    /// There is no memory for a frame.
    NoMemory,
    /// The file could not be written.
    Write(String),
}

/// Whether pixel `n` is mostly transparent.
pub open spec fn see_through(p: Picture, n: int) -> bool {
    p.data[n * 4 + 3] < 128
}

/// Whether any pixel of any frame is mostly transparent.
pub open spec fn any_see_through(frames: Seq<(Picture, u16)>) -> bool {
    exists|i: int, n: int|
        0 <= i < frames.len() && 0 <= n < frames[i].0.data.len() / 4 && #[trigger] see_through(
            frames[i].0,
            n,
        )
}

/// How many colors the quantizer is asked for: between 2 and 256, one less
/// where the transparent color takes a place, but two at least.
pub open spec fn wanted_colors(colors: u16, transparent: bool) -> usize {
    let most = if colors < 2 {
        2int
    } else if colors > 256 {
        256
    } else {
        colors as int
    };
    let left = if transparent {
        most - 1
    } else {
        most
    };
    (if left < 2 {
        2
    } else {
        left
    }) as usize
}

/// The places of a palette of `n` colors: a power of two.
pub open spec fn slots(n: int) -> int {
    if n <= 2 {
        2
    } else if n <= 4 {
        4
    } else if n <= 8 {
        8
    } else if n <= 16 {
        16
    } else if n <= 32 {
        32
    } else if n <= 64 {
        64
    } else if n <= 128 {
        128
    } else {
        256
    }
}

/// The palette of the file: the quantizer's colors, black for the transparent
/// one where there is one, and black up to a power of two.
pub open spec fn file_palette(colors: Seq<u8>, transparent: bool) -> Seq<u8> {
    let n = colors.len() / 3 + if transparent {
        1int
    } else {
        0
    };
    Seq::new(
        (slots(n) * 3) as nat,
        |i: int|
            if i < colors.len() {
                colors[i]
            } else {
                0
            },
    )
}

/// What a set of frames is encoded with.
pub struct Plan {
    pub width: u16,
    pub height: u16,
    pub quant: color_quant::NeuQuant,
    pub transparent: Option<u8>,
    pub dither: bool,
}

pub open spec fn plan_of(frames: Seq<(Picture, u16)>, settings: ExportSettings) -> Plan {
    let clear = any_see_through(frames);
    let quant = trained(wanted_colors(settings.colors, clear), sampled(frames));
    Plan {
        width: frames[0].0.width as u16,
        height: frames[0].0.height as u16,
        quant,
        transparent: if clear {
            Some(wanted_colors(settings.colors, clear) as u8)
        } else {
            None
        },
        dither: settings.dither,
    }
}

/// The bytes of the first `n` frames.
pub open spec fn frames_bytes(frames: Seq<(Picture, u16)>, plan: Plan, n: nat) -> Seq<u8>
    decreases n,
{
    if n == 0 {
        seq![]
    } else {
        frames_bytes(frames, plan, (n - 1) as nat) + frame_bytes(
            plan.width,
            plan.height,
            frames[n - 1].1,
            plan.transparent,
            indexed(plan.quant, frames[n - 1].0, plan.transparent, plan.dither),
        )
    }
}

/// The whole file.
pub open spec fn file_bytes(frames: Seq<(Picture, u16)>, settings: ExportSettings) -> Seq<u8> {
    let plan = plan_of(frames, settings);
    (head_bytes(
        plan.width,
        plan.height,
        file_palette(palette_of(plan.quant), any_see_through(frames)),
    ) + repeat_bytes(settings.loops) + frames_bytes(frames, plan, frames.len())).push(0x3b)
}

/// Whether every frame has a pixel for each place of the canvas, which is as
/// large as the first one.
pub open spec fn filled(frames: Seq<(Picture, u16)>) -> bool {
    forall|i: int|
        0 <= i < frames.len() ==> (#[trigger] frames[i]).0.data.len() / 4 >= (
        frames[0].0.width as u16) * (frames[0].0.height as u16)
}

/// Whether an attempt to write these frames failed as it should: with nothing
/// to write, because there was no memory, or for a frame with too few pixels.
pub open spec fn fails_fairly(e: EncodeError, frames: Seq<(Picture, u16)>) -> bool {
    match e {
        EncodeError::Empty => frames.len() == 0,
        EncodeError::NoMemory => frames.len() > 0,
        EncodeError::Write(_) => frames.len() > 0 && !filled(frames),
    }
}

/// Whether what is written of these frames can be read again: whole pictures
/// of one size, which the format and the decoder can hold.
pub open spec fn readable(frames: Seq<(Picture, u16)>) -> bool {
    &&& frames.len() > 0
    &&& 0 < frames[0].0.width <= u16::MAX
    &&& 0 < frames[0].0.height <= u16::MAX
    &&& frames[0].0.width * frames[0].0.height * 4 <= READ_LIMIT
    &&& forall|i: int|
        0 <= i < frames.len() ==> {
            &&& (#[trigger] frames[i]).0.wf()
            &&& frames[i].0.width == frames[0].0.width
            &&& frames[i].0.height == frames[0].0.height
        }
}

/// Frame `i` of the file, as it is read again.
pub open spec fn frame_back(
    frames: Seq<(Picture, u16)>,
    settings: ExportSettings,
    i: int,
) -> RawView {
    let plan = plan_of(frames, settings);
    whole_frame(
        plan.width,
        plan.height,
        frames[i].1,
        plan.transparent,
        file_palette(palette_of(plan.quant), any_see_through(frames)),
        indexed(plan.quant, frames[i].0, plan.transparent, plan.dither),
    )
}

/// What is read again of a file with these frames.
pub open spec fn read_back(frames: Seq<(Picture, u16)>, settings: ExportSettings) -> GifView {
    GifView {
        width: frames[0].0.width as u16,
        height: frames[0].0.height as u16,
        frames: Seq::new(frames.len(), |i: int| frame_back(frames, settings, i)),
        broken: false,
    }
}

/// The color of the palette that stands for transparency comes right after
/// the quantizer's.
pub fn palette_for(colors: &Vec<u8>, transparent: bool) -> (r: Vec<u8>)
    requires
        colors@.len() % 3 == 0,
        colors@.len() <= 768,
    ensures
        r@ == file_palette(colors@, transparent),
{
    let count: usize = colors.len() / 3 + if transparent {
        1
    } else {
        0
    };
    let mut places: usize = 2;
    while places < count && places < 256
        invariant
            places == 2 || places == 4 || places == 8 || places == 16 || places == 32 || places
                == 64 || places == 128 || places == 256,
            places <= slots(count as int),
        decreases 256 - places,
    {
        places = places * 2;
    }
    let mut r: Vec<u8> = Vec::new();
    let mut i: usize = 0;
    while i < places * 3
        invariant
            i <= places * 3,
            places <= 256,
            r@.len() == i,
            forall|k: int|
                0 <= k < i ==> #[trigger] r@[k] == if k < colors@.len() {
                    colors@[k]
                } else {
                    0
                },
        decreases places * 3 - i,
    {
        r.push(
            if i < colors.len() {
                colors[i]
            } else {
                0
            },
        );
        i = i + 1;
    }
    assert(r@ =~= file_palette(colors@, transparent));
    r
}

fn has_clear(frames: &Vec<(Raster, u16)>) -> (r: bool)
    ensures
        r == any_see_through(shots(frames@)),
{
    let ghost all = shots(frames@);
    let mut i: usize = 0;
    while i < frames.len()
        invariant
            i <= frames@.len(),
            all == shots(frames@),
            forall|k: int, n: int|
                0 <= k < i && 0 <= n < all[k].0.data.len() / 4 ==> !#[trigger] see_through(
                    all[k].0,
                    n,
                ),
        decreases frames@.len() - i,
    {
        let data = &frames[i].0.data;
        let mut n: usize = 0;
        while n < data.len() / 4
            invariant
                i < frames@.len(),
                all == shots(frames@),
                data@ == all[i as int].0.data,
                data.len() == data@.len(),
                n <= data@.len() / 4,
                forall|m: int| 0 <= m < n ==> !#[trigger] see_through(all[i as int].0, m),
            decreases data@.len() / 4 - n,
        {
            if data[n * 4 + 3] < 128 {
                assert(see_through(all[i as int].0, n as int));
                return true;
            }
            n = n + 1;
        }
        i = i + 1;
    }
    false
}

/// Whether the pictures can all be addressed at once, with pixels only where
/// the canvas, as the format holds its size, has an area.
pub open spec fn can_encode(all: Seq<(Picture, u16)>) -> bool {
    &&& picked_pixels(all, 1, 0) <= usize::MAX
    &&& all.len() > 0 && (all[0].0.width as u16 == 0 || all[0].0.height as u16 == 0)
        ==> forall|i: int| 0 <= i < all.len() ==> (#[trigger] all[i]).0.data.len() == 0
}

/// Whether `after` is the picture an export takes for `before`: the same one,
/// unless a size is given that it does not have; then a whole picture of that
/// size, which the resampler made of it.
pub open spec fn fitting(before: Raster, size: Option<(u32, u32)>, after: Raster) -> bool {
    match size {
        Some((w, h)) => {
            &&& scaled(before, w, h, after)
            &&& after.width == w
            &&& after.height == h
            &&& after.wf()
            &&& before.width == w && before.height == h ==> after@ == before@
        },
        None => after@ == before@,
    }
}

/// Whether the frames are as an export takes pictures with their delays: each
/// fitted to `size` where one is given.
pub open spec fn fitted_all(
    images: Seq<Raster>,
    delays: Seq<u16>,
    size: Option<(u32, u32)>,
    frames: Seq<(Raster, u16)>,
) -> bool {
    &&& frames.len() == images.len()
    &&& forall|k: int|
        0 <= k < frames.len() ==> fitting(images[k], size, (#[trigger] frames[k]).0) && frames[k].1
            == delays[k]
}

/// Frames of a document as an export takes them: each of those at `indices`
/// with its overlays on it, scaled to `size` where one is given, for its time
/// of `delays`.
pub open spec fn taken<S: Fn(Raster, &Overlay) -> Raster>(
    doc: DocView,
    indices: Seq<usize>,
    stamp: S,
    delays: Seq<u16>,
    size: Option<(u32, u32)>,
    images: Seq<Raster>,
    frames: Seq<(Raster, u16)>,
) -> bool {
    &&& images.len() == indices.len()
    &&& forall|k: int|
        0 <= k < images.len() ==> composited(
            doc,
            indices[k] as int,
            stamp,
            #[trigger] images[k],
        )
    &&& fitted_all(
        images,
        Seq::new(indices.len(), |k: int| delays[indices[k] as int]),
        size,
        frames,
    )
}

/// The size frame `i` of a document is exported at.
pub open spec fn export_size(doc: DocView, i: int, size: Option<(u32, u32)>) -> (u32, u32) {
    match size {
        Some(size) => size,
        None => (doc.frames[i].pixels.width, doc.frames[i].pixels.height),
    }
}

/// Whether the frames of a document are exported at one size, which the format
/// and the decoder can hold.
pub open spec fn exports_legibly(doc: DocView, size: Option<(u32, u32)>) -> bool {
    let (w, h) = export_size(doc, 0, size);
    &&& doc.frames.len() > 0
    &&& 0 < w <= u16::MAX
    &&& 0 < h <= u16::MAX
    &&& w * h * 4 <= READ_LIMIT
    &&& forall|i: int| 0 <= i < doc.frames.len() ==> #[trigger] export_size(doc, i, size) == (w, h)
}

/// Whether the frames have the sizes they are exported at.
pub open spec fn export_sizes(
    doc: DocView,
    indices: Seq<usize>,
    size: Option<(u32, u32)>,
    all: Seq<(Picture, u16)>,
) -> bool {
    forall|k: int|
        0 <= k < all.len() ==> ((#[trigger] all[k]).0.width, all[k].0.height) == export_size(
            doc,
            indices[k] as int,
            size,
        )
}

/// Whether every frame can be scaled to `size`, where one is given.
pub open spec fn scales_to(doc: DocView, size: Option<(u32, u32)>) -> bool {
    size matches Some((w, h)) ==> forall|i: int|
        0 <= i < doc.frames.len() ==> resizable(
            (#[trigger] doc.frames[i]).pixels.width as int,
            doc.frames[i].pixels.height as int,
            w as int,
            h as int,
        )
}

/// Whole frames of one legible size can be read again.
proof fn lemma_legible(
    doc: DocView,
    indices: Seq<usize>,
    size: Option<(u32, u32)>,
    all: Seq<(Picture, u16)>,
)
    requires
        all.len() == indices.len() == doc.frames.len(),
        forall|k: int| 0 <= k < indices.len() ==> #[trigger] indices[k] < doc.frames.len(),
        forall|k: int| 0 <= k < all.len() ==> (#[trigger] all[k]).0.wf(),
        export_sizes(doc, indices, size, all),
    ensures
        exports_legibly(doc, size) ==> readable(all),
{
    if exports_legibly(doc, size) {
        let (w, h) = export_size(doc, 0, size);
        assert forall|k: int| 0 <= k < all.len() implies (#[trigger] all[k]).0.width == w
            && all[k].0.height == h by {
            assert(indices[k] < doc.frames.len());
            assert(export_size(doc, indices[k] as int, size) == (w, h));
        }
    }
}

impl Encodable {
    /// Every frame of the document. `delays` is how long each shows at the
    /// export's speed, `size` what the export scales to.
    pub fn from_document<S: Fn(Raster, &Overlay) -> Raster>(
        doc: &Document,
        stamp: &S,
        delays: &Vec<u16>,
        size: Option<(u32, u32)>,
    ) -> (r: Encodable)
        requires
            doc@.frames_sound(),
            keeps_size(*stamp),
            delays@.len() == doc@.frames.len(),
            scales_to(doc@, size),
        ensures
            exists|images: Seq<Raster>| #[trigger]
                taken(
                    doc@,
                    run_of(0, doc@.frames.len() as int),
                    *stamp,
                    delays@,
                    size,
                    images,
                    r.frames@,
                ),
            export_sizes(doc@, run_of(0, doc@.frames.len() as int), size, shots(r.frames@)),
            exports_legibly(doc@, size) ==> readable(shots(r.frames@)),
            forall|i: int| 0 <= i < r.frames@.len() ==> (#[trigger] r.frames@[i]).0.wf(),
    {
        assert(doc.frames.len() == doc@.frames.len());
        let indices = frames_from(0, doc.frames.len());
        let r = Encodable::gather(doc, stamp, delays, size, &indices);
        proof {
            lemma_legible(doc@, indices@, size, shots(r.frames@));
        }
        r
    }

    /// Up to `count` evenly-spaced frames. Spread rather than taken from the
    /// front: the front of a clip is rarely typical of the rest of it.
    pub fn sample_document<S: Fn(Raster, &Overlay) -> Raster>(
        doc: &Document,
        stamp: &S,
        delays: &Vec<u16>,
        size: Option<(u32, u32)>,
        count: usize,
    ) -> (r: Encodable)
        requires
            doc@.frames_sound(),
            keeps_size(*stamp),
            delays@.len() == doc@.frames.len(),
            scales_to(doc@, size),
        ensures
            exists|images: Seq<Raster>| #[trigger]
                taken(
                    doc@,
                    sample_inside(doc@.frames.len(), count),
                    *stamp,
                    delays@,
                    size,
                    images,
                    r.frames@,
                ),
            export_sizes(doc@, sample_inside(doc@.frames.len(), count), size, shots(r.frames@)),
            forall|i: int| 0 <= i < r.frames@.len() ==> (#[trigger] r.frames@[i]).0.wf(),
    {
        assert(doc.frames.len() == doc@.frames.len());
        let indices = if doc.frames.len() == 0 {
            let none: Vec<usize> = Vec::new();
            assert(none@ =~= seq![]);
            none
        } else {
            proof {
                law_sample_is_inside(doc@.frames.len(), count);
            }
            sample_indices(doc.frames.len(), count)
        };
        assert(indices@ == sample_inside(doc@.frames.len(), count));
        Encodable::gather(doc, stamp, delays, size, &indices)
    }

    fn gather<S: Fn(Raster, &Overlay) -> Raster>(
        doc: &Document,
        stamp: &S,
        delays: &Vec<u16>,
        size: Option<(u32, u32)>,
        indices: &Vec<usize>,
    ) -> (r: Encodable)
        requires
            doc@.frames_sound(),
            keeps_size(*stamp),
            delays@.len() == doc@.frames.len(),
            scales_to(doc@, size),
            forall|k: int| 0 <= k < indices@.len() ==> #[trigger] indices@[k] < doc@.frames.len(),
        ensures
            exists|images: Seq<Raster>| #[trigger]
                taken(doc@, indices@, *stamp, delays@, size, images, r.frames@),
            r.frames@.len() == indices@.len(),
            export_sizes(doc@, indices@, size, shots(r.frames@)),
            forall|i: int| 0 <= i < r.frames@.len() ==> (#[trigger] r.frames@[i]).0.wf(),
    {
        let images = composite_all(doc, indices, stamp);
        let ghost drawn = images@;
        let mut times: Vec<u16> = Vec::new();
        let mut k: usize = 0;
        while k < indices.len()
            invariant
                k <= indices@.len(),
                delays@.len() == doc@.frames.len(),
                forall|k: int| 0 <= k < indices@.len() ==> #[trigger] indices@[k] < doc@.frames.len(),
                times@ == Seq::new(k as nat, |j: int| delays@[indices@[j] as int]),
            decreases indices@.len() - k,
        {
            assert(indices@[k as int] < doc@.frames.len());
            times.push(delays[indices[k]]);
            k = k + 1;
            assert(times@ =~= Seq::new(k as nat, |j: int| delays@[indices@[j] as int]));
        }
        proof {
            if size is Some {
                let (w, h) = size->Some_0;
                assert forall|i: int| 0 <= i < images@.len() implies resizable(
                    (#[trigger] images@[i]).width as int,
                    images@[i].height as int,
                    w as int,
                    h as int,
                ) by {
                    assert(indices@[i] < doc@.frames.len());
                    let frame = doc@.frames[indices@[i] as int];
                    assert(resizable(
                        frame.pixels.width as int,
                        frame.pixels.height as int,
                        w as int,
                        h as int,
                    ));
                }
            }
        }
        let r = Encodable::build(images, &times, size);
        proof {
            assert(times@ =~= Seq::new(indices@.len(), |k: int| delays@[indices@[k] as int]));
            assert(taken(doc@, indices@, *stamp, delays@, size, drawn, r.frames@));
            assert(export_sizes(doc@, indices@, size, shots(r.frames@)));
        }
        r
    }

    /// Whole pictures that can be encoded.
    pub open spec fn wf(&self) -> bool {
        &&& forall|i: int| 0 <= i < self.frames@.len() ==> (#[trigger] self.frames@[i]).0.wf()
        &&& can_encode(shots(self.frames@))
    }

    /// Whether the pictures can be encoded.
    pub fn encodable(&self) -> (r: bool)
        requires
            forall|i: int| 0 <= i < self.frames@.len() ==> (#[trigger] self.frames@[i]).0.wf(),
        ensures
            r == can_encode(shots(self.frames@)),
    {
        let ghost all = shots(self.frames@);
        let mut total: u128 = 0;
        let mut pixels = false;
        let mut i: usize = self.frames.len();
        while i > 0
            invariant
                i <= self.frames@.len(),
                all == shots(self.frames@),
                total == picked_pixels(all, 1, i as int),
                total <= (self.frames@.len() - i) * 0xffff_ffff_ffff_ffff,
                pixels == (exists|k: int| i <= k < all.len() && (#[trigger] all[k]).0.data.len() != 0),
            decreases i,
        {
            i = i - 1;
            assert(self.frames.len() == self.frames@.len());
            let len: usize = self.frames[i].0.data.len();
            assert(all[i as int].0.data.len() == len);
            if len != 0 {
                pixels = true;
            }
            assert((self.frames@.len() - i) * 0xffff_ffff_ffff_ffff == (self.frames@.len() - (i + 1))
                * 0xffff_ffff_ffff_ffff + 0xffff_ffff_ffff_ffff) by (nonlinear_arith)
                requires
                    i < self.frames@.len(),
            ;
            assert((self.frames@.len() - i) * 0xffff_ffff_ffff_ffff <= 0xffff_ffff_ffff_ffff
                * 0xffff_ffff_ffff_ffff) by (nonlinear_arith)
                requires
                    self.frames@.len() <= 0xffff_ffff_ffff_ffff,
                    0 <= i <= self.frames@.len(),
            ;
            total = total + (len / 4) as u128;
        }
        if total > usize::MAX as u128 {
            return false;
        }
        if self.frames.len() == 0 {
            return true;
        }
        let first = &self.frames[0].0;
        assert(all[0].0 == first@);
        !((first.width as u16 == 0 || first.height as u16 == 0) && pixels)
    }

    /// Pair composited pictures with their delays, scaled to `size` where one
    /// is given.
    pub fn build(images: Vec<Raster>, delays: &Vec<u16>, size: Option<(u32, u32)>) -> (r: Encodable)
        requires
            images@.len() == delays@.len(),
            forall|i: int| 0 <= i < images@.len() ==> (#[trigger] images@[i]).wf(),
            size matches Some((w, h)) ==> forall|i: int|
                0 <= i < images@.len() ==> resizable(
                    (#[trigger] images@[i]).width as int,
                    images@[i].height as int,
                    w as int,
                    h as int,
                ),
        ensures
            fitted_all(images@, delays@, size, r.frames@),
            forall|i: int| 0 <= i < r.frames@.len() ==> (#[trigger] r.frames@[i]).0.wf(),
    {
        match size {
            Some((w, h)) => Encodable::pair(scale_all(&images, w, h), delays),
            None => Encodable::pair(images, delays),
        }
    }

    /// Pair pictures with their delays.
    pub fn pair(images: Vec<Raster>, delays: &Vec<u16>) -> (r: Encodable)
        requires
            images@.len() == delays@.len(),
        ensures
            r.frames@ == Seq::new(images@.len(), |k: int| (images@[k], delays@[k])),
    {
        let ghost all = images@;
        let mut frames: Vec<(Raster, u16)> = Vec::new();
        for image in it: images
            invariant
                it.seq() == all,
                all.len() == delays@.len(),
                frames@ == Seq::new(it.index() as nat, |k: int| (all[k], delays@[k])),
        {
            let at: usize = frames.len();
            frames.push((image, delays[at]));
            assert(frames@ =~= Seq::new((it.index() + 1) as nat, |k: int| (all[k], delays@[k])));
        }
        Encodable { frames }
    }
}

/// The pictures scaled to one size.
fn scale_all(images: &Vec<Raster>, w: u32, h: u32) -> (r: Vec<Raster>)
    requires
        forall|i: int| 0 <= i < images@.len() ==> (#[trigger] images@[i]).wf(),
        forall|i: int|
            0 <= i < images@.len() ==> resizable(
                (#[trigger] images@[i]).width as int,
                images@[i].height as int,
                w as int,
                h as int,
            ),
    ensures
        r@.len() == images@.len(),
        forall|k: int|
            0 <= k < r@.len() ==> fitting(images@[k], Some((w, h)), #[trigger] r@[k]),
{
    let mut r: Vec<Raster> = Vec::new();
    let mut i: usize = 0;
    while i < images.len()
        invariant
            i <= images@.len(),
            forall|i: int| 0 <= i < images@.len() ==> (#[trigger] images@[i]).wf(),
            forall|i: int|
                0 <= i < images@.len() ==> resizable(
                    (#[trigger] images@[i]).width as int,
                    images@[i].height as int,
                    w as int,
                    h as int,
                ),
            r@.len() == i,
            forall|k: int| 0 <= k < i ==> fitting(images@[k], Some((w, h)), #[trigger] r@[k]),
        decreases images@.len() - i,
    {
        r.push(scale(&images[i], w, h));
        i = i + 1;
    }
    r
}

/// The frames of a sample: up to `count` evenly-spaced ones out of `n`. Spread
/// rather than taken from the front: the front of a clip is rarely typical of
/// the rest of it.
pub open spec fn sample_places(n: nat, count: usize) -> Seq<usize> {
    let least = if n < 1 {
        1
    } else {
        n as int
    };
    let count = if count < 1 {
        1
    } else if count > least {
        least
    } else {
        count as int
    };
    Seq::new(count as nat, |i: int| ((i * n + n / 2) / count) as usize)
}

/// The frames of a sample, of which there are none where there are no frames.
pub open spec fn sample_inside(n: nat, count: usize) -> Seq<usize> {
    if n == 0 {
        seq![]
    } else {
        sample_places(n, count)
    }
}

/// Which frames a sample of up to `count` out of `n` takes.
pub fn sample_indices(n: usize, count: usize) -> (r: Vec<usize>)
    ensures
        r@ == sample_places(n as nat, count),
{
    let least: usize = if n < 1 {
        1
    } else {
        n
    };
    let count: usize = if count < 1 {
        1
    } else if count > least {
        least
    } else {
        count
    };
    let mut r: Vec<usize> = Vec::new();
    let mut i: usize = 0;
    while i < count
        invariant
            i <= count,
            count >= 1,
            count <= usize::MAX,
            r@.len() == i,
            forall|k: int|
                0 <= k < i ==> #[trigger] r@[k] == ((k * (n as int) + n as int / 2) / (count as int)) as usize,
        decreases count - i,
    {
        assert(0 <= i * n <= 0xffff_ffff_ffff_ffff * 0xffff_ffff_ffff_ffff) by (nonlinear_arith)
            requires
                0 <= i <= 0xffff_ffff_ffff_ffff,
                0 <= n <= 0xffff_ffff_ffff_ffff,
        ;
        let at: u128 = (i as u128 * n as u128 + (n / 2) as u128) / count as u128;
        proof {
            lemma_place_inside(i as int, n as int, count as int);
        }
        r.push(at as usize);
        i = i + 1;
    }
    assert(r@ =~= sample_places(n as nat, count));
    r
}

proof fn lemma_place_inside(i: int, n: int, count: int)
    requires
        0 <= i < count,
        0 <= n,
    ensures
        0 <= (i * n + n / 2) / count <= n,
        n > 0 && count <= n ==> (i * n + n / 2) / count < n,
{
    assert(i * n + n / 2 <= count * n && 0 <= i * n) by (nonlinear_arith)
        requires
            0 <= i < count,
            0 <= n,
    ;
    vstd::arithmetic::div_mod::lemma_div_is_ordered(i * n + n / 2, count * n, count);
    vstd::arithmetic::div_mod::lemma_div_multiples_vanish(n, count);
    assert(count * n / count == n);
    vstd::arithmetic::div_mod::lemma_div_pos_is_pos(i * n + n / 2, count);
    if n > 0 && count <= n {
        let v = (i * n + n / 2) / count;
        assert(i * n + n / 2 < count * n) by (nonlinear_arith)
            requires
                0 <= i < count,
                0 < n,
        ;
        if v >= n {
            vstd::arithmetic::div_mod::lemma_fundamental_div_mod(i * n + n / 2, count);
            assert(count * v >= count * n) by (nonlinear_arith)
                requires
                    v >= n,
                    count > 0,
            ;
            assert((i * n + n / 2) % count >= 0);
        }
    }
}

/// A sample of a document with frames names frames it has, in order.
pub proof fn law_sample_is_inside(n: nat, count: usize)
    requires
        0 < n <= usize::MAX,
    ensures
        1 <= sample_places(n, count).len() <= n,
        forall|i: int|
            0 <= i < sample_places(n, count).len() ==> #[trigger] sample_places(n, count)[i] < n,
{
    let s = sample_places(n, count);
    let c = s.len() as int;
    assert forall|i: int| 0 <= i < s.len() implies #[trigger] s[i] < n by {
        lemma_place_inside(i, n as int, c);
    }
}

/// The colors a picture is mapped onto are all in the file's palette.
proof fn lemma_colored(
    colors: Seq<u8>,
    palette: Seq<u8>,
    transparent: Option<u8>,
    indices: Seq<u8>,
)
    requires
        colors.len() <= palette.len(),
        transparent matches Some(t) ==> t * 3 + 3 <= palette.len(),
        forall|k: int|
            0 <= k < indices.len() ==> has_color(colors, transparent, #[trigger] indices[k]),
    ensures
        all_colored(palette, indices),
{
    assert forall|k: int| 0 <= k < indices.len() implies (#[trigger] indices[k]) * 3 + 3
        <= palette.len() by {
        assert(has_color(colors, transparent, indices[k]));
    }
}

/// Frames that can be read again have all their pixels, so writing them fails
/// for want of memory alone.
pub proof fn law_readable_frames_are_written(frames: Seq<(Picture, u16)>, e: EncodeError)
    requires
        readable(frames),
        fails_fairly(e, frames),
    ensures
        filled(frames),
        e is NoMemory,
{
    let (w, h) = (frames[0].0.width as int, frames[0].0.height as int);
    assert forall|i: int| 0 <= i < frames.len() implies (#[trigger] frames[i]).0.data.len() / 4 >= (
    frames[0].0.width as u16) * (frames[0].0.height as u16) by {
        assert(frames[i].0.data.len() == w * h * 4);
    }
}

/// Quantize against one global palette and write with exact per-frame delays.
/// `progress` runs after every written frame with the 1-based count and the
/// frame total, so the export bar reads in frames like every other job's.
///
/// The encoder asks for memory for each frame, and says so where it gets none:
/// that is for the machine to decide, and `NoMemory`.
pub fn encode<P: FnMut(usize, usize)>(
    enc: &Encodable,
    settings: &ExportSettings,
    progress: P,
) -> (r: Result<Vec<u8>, EncodeError>)
    requires
        enc.wf(),
        forall|k: usize, total: usize|
            1 <= k <= total && total == enc.frames@.len() ==> #[trigger] call_requires(
                progress,
                (k, total),
            ),
    ensures
        enc.frames@.len() == 0 <==> r matches Err(EncodeError::Empty),
        r matches Err(e) ==> fails_fairly(e, shots(enc.frames@)),
        r matches Ok(bytes) ==> {
            let all = shots(enc.frames@);
            &&& filled(all)
            &&& bytes@ == file_bytes(all, *settings)
            &&& readable(all) ==> gif_of(bytes@) == Some(read_back(all, *settings))
            &&& forall|k: usize|
                1 <= k <= enc.frames@.len() ==> #[trigger] call_ensures(
                    progress,
                    (k, enc.frames@.len() as usize),
                    (),
                )
        },
{
    let ghost all = shots(enc.frames@);
    if enc.frames.len() == 0 {
        return Err(EncodeError::Empty);
    }
    let clear = has_clear(&enc.frames);
    let ghost plan = plan_of(all, *settings);
    let width: u16 = #[verifier::truncate] (enc.frames[0].0.width as u16);
    let height: u16 = #[verifier::truncate] (enc.frames[0].0.height as u16);
    let most: u16 = if settings.colors < 2 {
        2
    } else if settings.colors > 256 {
        256
    } else {
        settings.colors
    };
    let left: u16 = if clear {
        most - 1
    } else {
        most
    };
    let wanted: usize = if left < 2 {
        2
    } else {
        left as usize
    };
    let pixels = sample(&enc.frames);
    let quant = train(wanted, &pixels);
    let colors = color_map(&quant);
    let palette = palette_for(&colors, clear);
    let transparent: Option<u8> = if clear {
        Some(wanted as u8)
    } else {
        None
    };
    let mut writer = match open_writer(width, height, &palette) {
        Ok(writer) => writer,
        Err(e) => {
            return Err(EncodeError::Write(e));
        },
    };
    if let Err(e) = write_repeat(&mut writer, settings.loops) {
        return Err(EncodeError::Write(e));
    }
    let ghost start = written(writer);
    let total: usize = enc.frames.len();
    let mut report = progress;
    let mut i: usize = 0;
    assert(start + frames_bytes(all, plan, 0) =~= start);
    assert(read_back(all, *settings).frames.take(0) =~= seq![]);
    assert(palette@.len() == slots(palette_of(quant).len() / 3 + if clear {
        1int
    } else {
        0
    }) * 3);
    while i < total
        invariant
            i <= total,
            total == enc.frames@.len(),
            enc.wf(),
            all == shots(enc.frames@),
            report == progress,
            plan == plan_of(all, *settings),
            plan.quant == quant,
            plan.width == width,
            plan.height == height,
            width == all[0].0.width as u16,
            height == all[0].0.height as u16,
            palette@.len() > 0,
            plan.transparent == transparent,
            3 <= palette_of(quant).len() <= 768,
            written(writer) == start + frames_bytes(all, plan, i as nat),
            transparent matches Some(t) ==> t * 3 + 3 <= palette@.len(),
            palette_of(quant).len() <= palette@.len(),
            palette@ == file_palette(palette_of(quant), any_see_through(all)),
            palette_in(writer) == palette@,
            readable(all) ==> pending(writer) == (GifView {
                frames: read_back(all, *settings).frames.take(i as int),
                ..read_back(all, *settings)
            }),
            settings.dither == plan.dither,
            forall|k: int|
                0 <= k < i ==> (#[trigger] all[k]).0.data.len() / 4 >= width * height,
            forall|k: usize, total: usize|
                1 <= k <= total && total == enc.frames@.len() ==> #[trigger] call_requires(
                    progress,
                    (k, total),
                ),
            forall|k: usize| 1 <= k <= i ==> #[trigger] call_ensures(progress, (k, total), ()),
        decreases total - i,
    {
        let (image, delay) = (&enc.frames[i].0, enc.frames[i].1);
        assert(all[i as int] == (enc.frames@[i as int].0@, enc.frames@[i as int].1));
        assert(enc.frames@[i as int].0.wf());
        let indices = index_frame(image, &quant, transparent, settings.dither);
        let ghost chosen = indices@;
        proof {
            lemma_colored(palette_of(quant), palette@, transparent, chosen);
            if readable(all) {
                assert(all[i as int].0.width == all[0].0.width);
                assert(chosen.len() == width * height);
                assert(read_back(all, *settings).frames[i as int] == frame_back(
                    all,
                    *settings,
                    i as int,
                ));
            }
        }
        match write_frame(&mut writer, width, height, delay, transparent, indices) {
            Ok(()) => {},
            Err(FrameError::NoMemory) => {
                return Err(EncodeError::NoMemory);
            },
            Err(FrameError::Refused(e)) => {
                assert(all[i as int].0.data.len() / 4 < width * height);
                return Err(EncodeError::Write(e));
            },
        }
        assert(readable(all) ==> pending(writer).frames =~= read_back(all, *settings).frames.take(
            i + 1,
        ));
        assert(written(writer) =~= start + frames_bytes(all, plan, (i + 1) as nat));
        report(i + 1, total);
        i = i + 1;
    }
    assert(read_back(all, *settings).frames.take(total as int) =~= read_back(all, *settings).frames);
    match finish(writer) {
        Ok(bytes) => Ok(bytes),
        Err(e) => Err(EncodeError::Write(e)),
    }
}

/// Encoded size without touching the disk, for the export dialog's readout.
pub fn encoded_size(enc: &Encodable, settings: &ExportSettings) -> (r: Result<usize, EncodeError>)
    requires
        enc.wf(),
    ensures
        enc.frames@.len() == 0 <==> r matches Err(EncodeError::Empty),
        r matches Err(e) ==> fails_fairly(e, shots(enc.frames@)),
        r is Ok ==> filled(shots(enc.frames@)),
        r matches Ok(size) ==> size == file_bytes(shots(enc.frames@), *settings).len(),
{
    // The size preview has its own "sizing…" readout; it stays off the bar.
    match encode(enc, settings, |done: usize, total: usize| {  }) {
        Ok(bytes) => Ok(bytes.len()),
        Err(e) => Err(e),
    }
}

/// What a size estimate is made of.
#[derive(Clone, Copy, PartialEq, Eq, Debug, Structural)]
pub enum Estimate {
    /// The sample was the whole animation.
    Measured(usize),
    /// The sample's file, taken apart into what is paid once and what its
    /// frames cost together.
    Sampled { once: usize, frames: usize, sampled: usize },
}

/// What a measured sample says of an animation of `total` frames.
pub open spec fn estimate_of(measured: usize, sampled: usize, total: usize) -> Estimate {
    if sampled >= total {
        Estimate::Measured(measured)
    } else {
        let once = if measured < HEADER_BYTES {
            measured
        } else {
            HEADER_BYTES
        };
        Estimate::Sampled { once, frames: (measured - once) as usize, sampled }
    }
}

/// What a measured sample says of an animation of `total` frames.
pub fn estimate_from(measured: usize, sampled: usize, total: usize) -> (r: Estimate)
    ensures
        r == estimate_of(measured, sampled, total),
{
    if sampled >= total {
        return Estimate::Measured(measured);
    }
    let once: usize = if measured < HEADER_BYTES {
        measured
    } else {
        HEADER_BYTES
    };
    Estimate::Sampled { once, frames: measured - once, sampled }
}

/// Size of the whole animation, to be extrapolated from an encoded sample.
/// Real encoder, real palette, real LZW — only the frame count is arithmetic,
/// which is why this is the only thing allowed to name a size.
pub fn estimate_size(sample: &Encodable, total_frames: usize, settings: &ExportSettings) -> (r:
    Result<Estimate, EncodeError>)
    requires
        sample.wf(),
    ensures
        sample.frames@.len() == 0 <==> r matches Err(EncodeError::Empty),
        r matches Err(e) ==> fails_fairly(e, shots(sample.frames@)),
        r is Ok ==> filled(shots(sample.frames@)),
        r matches Ok(estimate) ==> estimate == estimate_of(
            file_bytes(shots(sample.frames@), *settings).len() as usize,
            sample.frames@.len() as usize,
            total_frames,
        ),
{
    match encoded_size(sample, settings) {
        Ok(measured) => Ok(estimate_from(measured, sample.frames.len(), total_frames)),
        Err(e) => Err(e),
    }
}

/// Measured GIF size for a file that has not been imported yet, from frames
/// sampled out of it: encode the sample for real, to be extrapolated to the
/// plan's frame count, or to its ceiling where the count is not known.
pub fn estimate_gif_size(samples: Vec<Raster>, delay: u16, plan: &ImportPlan) -> (r: Result<
    Estimate,
    EncodeError,
>)
    requires
        forall|i: int| 0 <= i < samples@.len() ==> (#[trigger] samples@[i]).wf(),
        can_encode(Seq::new(samples@.len(), |i: int| (samples@[i]@, delay))),
        plan.expected matches Some(n) ==> n <= usize::MAX,
        plan.cap <= usize::MAX,
    ensures
        samples@.len() == 0 <==> r matches Err(EncodeError::Empty),
        r matches Err(e) ==> fails_fairly(
            e,
            Seq::new(samples@.len(), |i: int| (samples@[i]@, delay)),
        ),
        r is Ok ==> filled(Seq::new(samples@.len(), |i: int| (samples@[i]@, delay))),
        r matches Ok(estimate) ==> estimate == estimate_of(
            file_bytes(
                Seq::new(samples@.len(), |i: int| (samples@[i]@, delay)),
                default_settings(),
            ).len() as usize,
            samples@.len() as usize,
            (match plan.expected {
                Some(n) => n,
                None => plan.cap,
            }) as usize,
        ),
{
    let ghost all = Seq::new(samples@.len(), |i: int| (samples@[i]@, delay));
    let mut delays: Vec<u16> = Vec::new();
    let mut i: usize = 0;
    while i < samples.len()
        invariant
            i <= samples@.len(),
            delays@ == Seq::new(i as nat, |k: int| delay),
        decreases samples@.len() - i,
    {
        delays.push(delay);
        i = i + 1;
        assert(delays@ =~= Seq::new(i as nat, |k: int| delay));
    }
    let enc = Encodable::build(samples, &delays, None);
    assert(shots(enc.frames@) =~= all);
    let total: u64 = match plan.frames() {
        Some(n) => n,
        None => plan.cap,
    };
    estimate_size(&enc, total as usize, &ExportSettings::default())
}

} // verus!
