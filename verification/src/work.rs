//! Frame-heavy operations, run against the document as it stood when they
//! were launched.

use vstd::prelude::*;

use crate::canvas::{
    at_least_one, clamp_rect, clamped_rect, key_after, list_views, redrawn, sized, Rect,
};
use crate::document::{views, DocView, Document};
use crate::i18n::n;
use crate::model::{Frame, FrameKeys, FrameView};
use crate::raster::{
    can_resample, drawable, is_drawable, resampled, resizable, resize, Filter, Raster,
};
use crate::soundness::whole;

verus! {

/// What the one progress bar is showing, whichever long job holds the app.
#[derive(Clone, Copy, PartialEq, Eq, Debug, Structural)]
pub enum BusyKind {
    Import,
    Resize,
    Zoom,
    Shrink,
    Crop,
}

/// A frame-heavy operation the worker thread runs against the document as it
/// stood when it was launched.
#[derive(Debug)]
pub enum FrameWork {
    Resize(u32, u32),
    Zoom { frames: Vec<usize>, rect: Rect },
    Shrink { frames: Vec<usize>, rect: Rect },
    Crop { rect: Rect },
}

/// What a `FrameWork` asks for.
pub enum WorkView {
    Resize(u32, u32),
    Zoom { frames: Seq<usize>, rect: Rect },
    Shrink { frames: Seq<usize>, rect: Rect },
    Crop { rect: Rect },
}

impl View for FrameWork {
    type V = WorkView;

    open spec fn view(&self) -> WorkView {
        match self {
            FrameWork::Resize(w, h) => WorkView::Resize(*w, *h),
            FrameWork::Zoom { frames, rect } => WorkView::Zoom { frames: frames@, rect: *rect },
            FrameWork::Shrink { frames, rect } => WorkView::Shrink { frames: frames@, rect: *rect },
            FrameWork::Crop { rect } => WorkView::Crop { rect: *rect },
        }
    }
}

impl WorkView {
    pub open spec fn title(self) -> Seq<char> {
        match self {
            WorkView::Resize(_, _) => "Resized"@,
            WorkView::Zoom { .. } => "Zoomed"@,
            WorkView::Shrink { .. } => "Cropped"@,
            WorkView::Crop { .. } => "Cropped"@,
        }
    }

    /// How many frames the edit will claim.
    pub open spec fn claims(self, doc: DocView) -> nat {
        match self {
            WorkView::Resize(_, _) => doc.frames.len(),
            WorkView::Zoom { frames, .. } => frames.len(),
            WorkView::Shrink { frames, .. } => frames.len(),
            WorkView::Crop { .. } => doc.frames.len(),
        }
    }

    pub open spec fn bar(self) -> BusyKind {
        match self {
            WorkView::Resize(_, _) => BusyKind::Resize,
            WorkView::Zoom { .. } => BusyKind::Zoom,
            WorkView::Shrink { .. } => BusyKind::Shrink,
            WorkView::Crop { .. } => BusyKind::Crop,
        }
    }

    /// Whether the pictures it makes can be frames, and those it resamples fit
    /// the memory there can be.
    pub open spec fn feasible(self, doc: DocView) -> bool {
        match self {
            WorkView::Resize(w, h) => doc.frames_resizable(at_least_one(w), at_least_one(h)),
            WorkView::Zoom { .. } => doc.canvas_resizable(),
            WorkView::Crop { rect } => doc.part_drawable(rect),
            WorkView::Shrink { .. } => true,
        }
    }

    /// The frames it makes, by index, each under a key of its own from `key`
    /// on.
    pub open spec fn list(self, doc: DocView, key: u64) -> Seq<(usize, FrameView)> {
        match self {
            WorkView::Resize(w, h) => doc.resized_list(at_least_one(w), at_least_one(h), key),
            WorkView::Zoom { frames, rect } => doc.zoomed_list(frames, rect, key),
            WorkView::Shrink { frames, rect } => doc.shrunk_list(frames, rect, key),
            WorkView::Crop { rect } => doc.cropped_list(rect, key),
        }
    }

    /// The size of the frames it makes.
    pub open spec fn size_made(self, doc: DocView) -> (u32, u32) {
        match self {
            WorkView::Resize(w, h) => (at_least_one(w), at_least_one(h)),
            WorkView::Crop { rect } => {
                let kept = clamp_rect(rect, doc.size().0, doc.size().1);
                (kept.w, kept.h)
            },
            _ => doc.size(),
        }
    }
}

impl FrameWork {
    /// The history label, marked: the toast translates it when it is shown.
    pub fn label(&self) -> (r: &'static str)
        ensures
            r@ == self@.title(),
    {
        match self {
            FrameWork::Resize(_, _) => n("Resized"),
            FrameWork::Zoom { .. } => n("Zoomed"),
            // Past-tense edit name for cropping a frame in place, without
            // scaling the kept region back up to the canvas size.
            FrameWork::Shrink { .. } => n("Cropped"),
            FrameWork::Crop { .. } => n("Cropped"),
        }
    }

    /// How many frames the edit will claim.
    pub fn touched(&self, doc: &Document) -> (r: usize)
        ensures
            r == self@.claims(doc@),
    {
        match self {
            FrameWork::Resize(_, _) => doc.frames.len(),
            FrameWork::Zoom { frames, .. } => frames.len(),
            FrameWork::Shrink { frames, .. } => frames.len(),
            FrameWork::Crop { .. } => doc.frames.len(),
        }
    }

    pub fn kind(&self) -> (r: BusyKind)
        ensures
            r == self@.bar(),
    {
        match self {
            FrameWork::Resize(_, _) => BusyKind::Resize,
            FrameWork::Zoom { .. } => BusyKind::Zoom,
            FrameWork::Shrink { .. } => BusyKind::Shrink,
            FrameWork::Crop { .. } => BusyKind::Crop,
        }
    }

    /// The sizes overlays scale between when the work lands, the new one and
    /// the old one. Only a resize changes the canvas the boxes are measured
    /// on.
    pub fn scale(&self, doc: &Document) -> (r: Option<((u32, u32), (u32, u32))>)
        ensures
            r == match self@ {
                WorkView::Resize(w, h) => Some(
                    ((w, h), (at_least_one(doc@.size().0), at_least_one(doc@.size().1))),
                ),
                _ => None,
            },
    {
        match self {
            FrameWork::Resize(w, h) => {
                let (cw, ch) = doc.size();
                let cw: u32 = if cw < 1 {
                    1
                } else {
                    cw
                };
                let ch: u32 = if ch < 1 {
                    1
                } else {
                    ch
                };
                Some(((*w, *h), (cw, ch)))
            },
            _ => None,
        }
    }

    /// How overlays move when the work lands, on top of any scale. Only a
    /// crop moves the origin — the frame it kept starts somewhere other than
    /// the corner, so every overlay has to follow it there.
    pub fn shift(&self) -> (r: (u32, u32))
        ensures
            r == match self@ {
                WorkView::Crop { rect } => (rect.x, rect.y),
                _ => (0u32, 0u32),
            },
    {
        match self {
            FrameWork::Crop { rect } => (rect.x, rect.y),
            _ => (0, 0),
        }
    }

    /// Whether the pictures it makes can be frames, and those it resamples fit
    /// the memory there can be.
    pub fn can_run(&self, doc: &Document) -> (r: bool)
        ensures
            r == self@.feasible(doc@),
    {
        match self {
            FrameWork::Resize(w, h) => {
                let w: u32 = if *w < 1 {
                    1
                } else {
                    *w
                };
                let h: u32 = if *h < 1 {
                    1
                } else {
                    *h
                };
                if !is_drawable(w, h) {
                    return false;
                }
                let mut i: usize = 0;
                while i < doc.frames.len()
                    invariant
                        i <= doc.frames@.len(),
                        drawable(w as int, h as int),
                        self@ matches WorkView::Resize(rw, rh) && w == at_least_one(rw) && h
                            == at_least_one(rh),
                        forall|k: int|
                            0 <= k < i ==> resizable(
                                (#[trigger] doc@.frames[k]).pixels.width as int,
                                doc@.frames[k].pixels.height as int,
                                w as int,
                                h as int,
                            ),
                    decreases doc.frames@.len() - i,
                {
                    let pixels = &doc.frames[i].pixels;
                    if !can_resample(pixels.width, pixels.height, w, h) {
                        assert(!resizable(
                            doc@.frames[i as int].pixels.width as int,
                            doc@.frames[i as int].pixels.height as int,
                            w as int,
                            h as int,
                        ));
                        return false;
                    }
                    i = i + 1;
                }
                true
            },
            FrameWork::Zoom { .. } => {
                let (cw, ch) = doc.size();
                can_resample(cw, ch, cw, ch)
            },
            FrameWork::Crop { rect } => {
                let (cw, ch) = doc.size();
                let r = clamped_rect(*rect, cw, ch);
                cw == 0 || ch == 0 || is_drawable(r.w, r.h)
            },
            FrameWork::Shrink { .. } => true,
        }
    }

    /// The heavy half of the work: the frames it makes, each reported as it
    /// is done.
    pub fn run<P: FnMut(usize, usize)>(
        &self,
        doc: &Document,
        progress: P,
        keys: &mut FrameKeys,
    ) -> (r: Vec<(usize, Frame)>)
        requires
            doc@.frames_sound(),
            self@.feasible(doc@),
            forall|k: usize, total: usize|
                1 <= k <= total && total <= self@.claims(doc@) ==> #[trigger] call_requires(
                    progress,
                    (k, total),
                ),
        ensures
            list_views(r@) == self@.list(doc@, old(keys).next),
            final(keys).next == key_after(old(keys).next, r@.len()),
            forall|k: int|
                0 <= k < r@.len() ==> (#[trigger] r@[k]).1.wf() && sized(
                    r@[k].1@,
                    self@.size_made(doc@).0,
                    self@.size_made(doc@).1,
                ),
            forall|k: usize|
                1 <= k <= r@.len() ==> #[trigger] call_ensures(progress, (k, r@.len() as usize), ()),
    {
        match self {
            FrameWork::Resize(w, h) => doc.resized_frames(*w, *h, progress, keys),
            FrameWork::Zoom { frames, rect } => doc.zoomed_frames(frames, *rect, progress, keys),
            FrameWork::Shrink { frames, rect } => doc.shrunk_frame_list(
                frames,
                *rect,
                progress,
                keys,
            ),
            FrameWork::Crop { rect } => doc.cropped_frames(*rect, progress, keys),
        }
    }
}

/// Whether a picture can become a frame of a canvas of this size.
pub open spec fn can_join(width: u32, height: u32, canvas: (u32, u32)) -> bool {
    &&& drawable(width as int, height as int)
    &&& drawable(canvas.0 as int, canvas.1 as int)
    &&& resizable(width as int, height as int, canvas.0 as int, canvas.1 as int)
}

pub fn joins(width: u32, height: u32, canvas: (u32, u32)) -> (r: bool)
    ensures
        r == can_join(width, height, canvas),
{
    is_drawable(width, height) && is_drawable(canvas.0, canvas.1) && can_resample(width, height, canvas.0, canvas.1)
}

/// The frames at the canvas size, each redrawn one under a key of its own from
/// `key` on.
pub open spec fn fitted_to(frames: Seq<FrameView>, canvas: (u32, u32), key: u64) -> (
    Seq<FrameView>,
    u64,
)
    decreases frames.len(),
{
    if frames.len() == 0 {
        (frames, key)
    } else {
        let (before, next) = fitted_to(frames.drop_last(), canvas, key);
        let frame = frames.last();
        if frame.pixels.width == canvas.0 && frame.pixels.height == canvas.1 {
            (before.push(frame), next)
        } else {
            (
                before.push(
                    redrawn(
                        frame,
                        resampled(frame.pixels, canvas.0, canvas.1),
                        next,
                    ),
                ),
                crate::model::next_key(next),
            )
        }
    }
}

/// The frames as they join a document of this size; see `resize_frames_to`.
pub open spec fn joined_to(frames: Seq<FrameView>, canvas: (u32, u32), key: u64) -> (
    Seq<FrameView>,
    u64,
) {
    if canvas.0 == 0 || canvas.1 == 0 {
        (frames, key)
    } else {
        fitted_to(frames, canvas, key)
    }
}

/// Bring frames decoded from another file onto the canvas they join. A second
/// file rarely decodes at the same size, and appending frames the compositor
/// cannot assume are uniform would break every op that reads the document's
/// size from the first frame. A size of nothing means the document was empty,
/// so whatever the new frames decoded at becomes the canvas.
pub fn resize_frames_to(frames: Vec<Frame>, canvas: (u32, u32), keys: &mut FrameKeys) -> (r: Vec<
    Frame,
>)
    requires
        whole(views(frames@)),
        forall|i: int|
            0 <= i < frames@.len() ==> can_join(
                (#[trigger] frames@[i])@.pixels.width,
                frames@[i]@.pixels.height,
                canvas,
            ),
    ensures
        (views(r@), final(keys).next) == joined_to(views(frames@), canvas, old(keys).next),
        whole(views(r@)),
        r@.len() == frames@.len(),
        forall|i: int|
            0 <= i < r@.len() ==> (#[trigger] r@[i])@.delay_cs == frames@[i]@.delay_cs && (canvas.0
                > 0 && canvas.1 > 0 ==> sized(r@[i]@, canvas.0, canvas.1)),
{
    if canvas.0 == 0 || canvas.1 == 0 {
        return frames;
    }
    let ghost all = views(frames@);
    let ghost first = keys.next;
    let mut r: Vec<Frame> = Vec::new();
    let mut i: usize = 0;
    while i < frames.len()
        invariant
            i <= frames@.len(),
            all == views(frames@),
            whole(all),
            forall|k: int|
                0 <= k < frames@.len() ==> can_join(
                    (#[trigger] frames@[k])@.pixels.width,
                    frames@[k]@.pixels.height,
                    canvas,
                ),
            r@.len() == i,
            (views(r@), keys.next) == fitted_to(all.take(i as int), canvas, first),
            whole(views(r@)),
            forall|k: int|
                0 <= k < i ==> (#[trigger] r@[k])@.delay_cs == frames@[k]@.delay_cs && sized(
                    r@[k]@,
                    canvas.0,
                    canvas.1,
                ),
        decreases frames@.len() - i,
    {
        let ghost before = r@;
        assert(all.take(i + 1).drop_last() =~= all.take(i as int));
        assert(all.take(i + 1).last() == frames@[i as int]@);
        assert(all[i as int].wf());
        let frame = &frames[i];
        if frame.pixels.width == canvas.0 && frame.pixels.height == canvas.1 {
            r.push(frame.clone());
        } else {
            let pixels = resize(&frame.pixels, canvas.0, canvas.1, Filter::Triangle);
            let mut resized = Frame::new(pixels, frame.delay_cs, keys);
            resized.detached = frame.detached;
            r.push(resized);
        }
        assert(views(r@) =~= views(before).push(r@[i as int]@));
        i = i + 1;
    }
    assert(all.take(i as int) =~= all);
    r
}

/// The frame a decoded image joins a document of this size as.
pub open spec fn image_frame(
    img: crate::raster::Picture,
    canvas: (u32, u32),
    delay_cs: u16,
    key: u64,
) -> FrameView {
    crate::model::new_frame(
        if canvas == (0u32, 0u32) || (img.width, img.height) == canvas {
            img
        } else {
            resampled(img, canvas.0, canvas.1)
        },
        delay_cs,
        key,
    )
}

/// Fit a decoded still image to the canvas, ready to splice in as one frame.
pub fn fit_image(img: Raster, canvas: (u32, u32), delay_cs: u16, keys: &mut FrameKeys) -> (r: Frame)
    requires
        img.wf(),
        can_join(img.width, img.height, canvas),
    ensures
        r@ == image_frame(img@, canvas, delay_cs, old(keys).next),
        canvas != (0u32, 0u32) ==> sized(r@, canvas.0, canvas.1),
        r.wf(),
        final(keys).next == crate::model::next_key(old(keys).next),
{
    let pixels = if (canvas.0 == 0 && canvas.1 == 0) || (img.width == canvas.0 && img.height
        == canvas.1) {
        img
    } else {
        resize(&img, canvas.0, canvas.1, Filter::Triangle)
    };
    Frame::new(pixels, delay_cs, keys)
}

} // verus!
