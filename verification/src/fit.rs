//! Fitting frames that arrive from a file onto the canvas the document
//! already has. A GIF has one canvas, so anything spliced in — a PNG, another
//! animation's frames, a video's — has to end up the same size as the frames
//! around it, and there is no single right way to get there. The user picks
//! one of four, and every importer routes through here rather than deciding
//! for itself.

use vstd::prelude::*;

use crate::arrange::clamped;
use crate::canvas::{
    key_after, list_views, redrawn, scaled_overlays, sized, with_frames, OverlayBox,
};
use crate::document::{views, DocView, Document};
use crate::model::{Frame, FrameKeys, FrameView};
use crate::picture_laws::{
    law_a_picture_covers_what_is_under_it, law_frames_are_put_in_their_places,
};
use crate::raster::{drawable, resampled, resizable, resize, Filter, Picture, Raster};
use crate::single::{Single, ONE_BITS};

verus! {

/// What gives way when incoming frames are not the canvas size. Two
/// questions, four answers: whose size wins — the open document's canvas or
/// the incoming file's — and whether the side that loses is stretched to the
/// winner's aspect ratio or scaled inside it with transparency around it.
#[derive(Clone, Copy, PartialEq, Eq, Debug, Structural)]
pub enum FitMode {
    /// Incoming frames stretched onto the canvas.
    Stretch,
    /// Incoming frames scaled to fit inside the canvas, transparency around.
    Pad,
    /// The canvas becomes the incoming size; the frames already in the
    /// document are scaled to fit inside it, transparency around them.
    GrowPad,
    /// The canvas becomes the incoming size; the frames already in the
    /// document are stretched onto it.
    GrowStretch,
}

/// What scaling a picture of one size to another takes, worked out in single
/// precision.
#[derive(Clone, Copy, Debug)]
pub struct Measure {
    /// The factor on each axis that fills the target.
    pub stretch: (Single, Single),
    /// The smaller of the two.
    pub factor: Single,
    /// The size under that one factor, rounded to whole pixels.
    pub fitted: (u32, u32),
}

/// Where a scaled image sits on the canvas: the factor it was scaled by on
/// each axis, the top-left corner it was drawn at, and the size it came out.
/// Pixels and overlay boxes both follow this one answer, which is what keeps a
/// caption over the thing it was written on when the canvas changes under it.
#[derive(Clone, Copy, Debug)]
pub struct Placement {
    pub scale: (Single, Single),
    pub offset: (u32, u32),
    pub size: (u32, u32),
}

/// Whether the size has no area.
pub open spec fn empty_size(size: (u32, u32)) -> bool {
    size.0 == 0 || size.1 == 0
}

fn is_empty(size: (u32, u32)) -> (r: bool)
    ensures
        r == empty_size(size),
{
    size.0 == 0 || size.1 == 0
}

/// At least one, at most `room`.
pub open spec fn between(side: u32, room: u32) -> u32 {
    if side < 1 {
        1
    } else if side > room {
        room
    } else {
        side
    }
}

impl FitMode {
    /// Menu order, so the chooser and any test walk the same list.
    pub fn all() -> (r: [FitMode; 4])
        ensures
            r@ == seq![FitMode::Stretch, FitMode::Pad, FitMode::GrowPad, FitMode::GrowStretch],
    {
        let r = [FitMode::Stretch, FitMode::Pad, FitMode::GrowPad, FitMode::GrowStretch];
        assert(r@ =~= seq![
            FitMode::Stretch,
            FitMode::Pad,
            FitMode::GrowPad,
            FitMode::GrowStretch,
        ]);
        r
    }

    /// Whether the canvas takes the incoming size, which is what decides
    /// which side of the splice has to be redrawn.
    pub fn grows_canvas(self) -> (r: bool)
        ensures
            r == (self == FitMode::GrowPad || self == FitMode::GrowStretch),
    {
        matches!(self, FitMode::GrowPad | FitMode::GrowStretch)
    }

    /// Whether the side being redrawn keeps its proportions and gains
    /// transparent margins, rather than being stretched to fill.
    pub fn keeps_aspect(self) -> (r: bool)
        ensures
            r == (self == FitMode::Pad || self == FitMode::GrowPad),
    {
        matches!(self, FitMode::Pad | FitMode::GrowPad)
    }

    /// The canvas the document ends up with.
    pub open spec fn canvas_of(self, doc: (u32, u32), incoming: (u32, u32)) -> (u32, u32) {
        if empty_size(doc) {
            incoming
        } else if empty_size(incoming) || self == FitMode::Stretch || self == FitMode::Pad {
            doc
        } else {
            incoming
        }
    }

    /// The canvas the document ends up with. An empty side has no size to
    /// impose, so the other one wins whatever the mode says.
    pub fn canvas(self, doc: (u32, u32), incoming: (u32, u32)) -> (r: (u32, u32))
        ensures
            r == self.canvas_of(doc, incoming),
    {
        if is_empty(doc) {
            return incoming;
        }
        if is_empty(incoming) || !self.grows_canvas() {
            return doc;
        }
        incoming
    }

    /// Where a `src`-sized image lands on a `dst`-sized canvas.
    pub open spec fn placed(self, src: (u32, u32), dst: (u32, u32), m: Measure) -> Placement {
        if empty_size(src) || empty_size(dst) || src == dst {
            Placement {
                scale: (Single { bits: ONE_BITS }, Single { bits: ONE_BITS }),
                offset: (0, 0),
                size: dst,
            }
        } else if self == FitMode::Stretch || self == FitMode::GrowStretch {
            Placement { scale: m.stretch, offset: (0, 0), size: dst }
        } else {
            let size = (between(m.fitted.0, dst.0), between(m.fitted.1, dst.1));
            Placement {
                scale: (m.factor, m.factor),
                offset: (((dst.0 - size.0) / 2) as u32, ((dst.1 - size.1) / 2) as u32),
                size,
            }
        }
    }

    /// Where a `src`-sized image lands on a `dst`-sized canvas under this
    /// mode: unscaled where there is nothing to do, over the whole canvas when
    /// stretched, else by one factor and centered. `m` is the measure of
    /// scaling `src` to `dst`.
    pub fn placement(self, src: (u32, u32), dst: (u32, u32), m: Measure) -> (r: Placement)
        ensures
            r == self.placed(src, dst, m),
            r.size.0 <= dst.0 && r.size.1 <= dst.1,
    {
        if is_empty(src) || is_empty(dst) || (src.0 == dst.0 && src.1 == dst.1) {
            return Placement::identity(dst);
        }
        if !self.keeps_aspect() {
            return Placement { scale: m.stretch, offset: (0, 0), size: dst };
        }
        let size = (
            if m.fitted.0 < 1 {
                1
            } else if m.fitted.0 > dst.0 {
                dst.0
            } else {
                m.fitted.0
            },
            if m.fitted.1 < 1 {
                1
            } else if m.fitted.1 > dst.1 {
                dst.1
            } else {
                m.fitted.1
            },
        );
        Placement {
            scale: (m.factor, m.factor),
            offset: ((dst.0 - size.0) / 2, (dst.1 - size.1) / 2),
            size,
        }
    }
}

impl Placement {
    fn identity(size: (u32, u32)) -> (r: Placement)
        ensures
            r == (Placement {
                scale: (Single { bits: ONE_BITS }, Single { bits: ONE_BITS }),
                offset: (0, 0),
                size,
            }),
    {
        let one = Single { bits: ONE_BITS };
        Placement { scale: (one, one), offset: (0, 0), size }
    }
}

/// A picture's size.
pub open spec fn size_of(p: Picture) -> (u32, u32) {
    (p.width, p.height)
}

/// The picture redrawn at `dst`.
pub open spec fn refitted(p: Picture, dst: (u32, u32), mode: FitMode, m: Measure) -> Picture {
    let placed = mode.placed(size_of(p), dst, m);
    let scaled = resampled(p, placed.size.0, placed.size.1);
    if placed.size == dst {
        scaled
    } else {
        Picture::blank(dst.0, dst.1).overlaid(
            scaled,
            placed.offset.0 as int,
            placed.offset.1 as int,
        )
    }
}

/// Redraw `img` at `dst`. Stretching resamples straight onto the canvas;
/// keeping the aspect ratio resamples by the smaller factor and centers the
/// result on a transparent canvas, so nothing is distorted and nothing is cut.
/// `m` is the measure of scaling the image's size to `dst`.
pub fn refit(img: &Raster, dst: (u32, u32), mode: FitMode, m: Measure) -> (r: Raster)
    requires
        img.wf(),
        resizable(img.width as int, img.height as int, dst.0 as int, dst.1 as int),
    ensures
        r.wf(),
        r@ == refitted(img@, dst, mode, m),
        size_of(r@) == dst,
{
    let placed = mode.placement((img.width, img.height), dst, m);
    proof {
        let (sw, w, h) = (img.width as int, placed.size.0 as int, placed.size.1 as int);
        assert(sw * h <= sw * dst.1 && w * h <= dst.0 * dst.1) by (nonlinear_arith)
            requires
                0 <= sw,
                0 <= w <= dst.0,
                0 <= h <= dst.1,
        ;
    }
    let scaled = resize(img, placed.size.0, placed.size.1, Filter::Triangle);
    if placed.size.0 == dst.0 && placed.size.1 == dst.1 {
        return scaled;
    }
    Raster::blank(dst.0, dst.1).overlaid(&scaled, placed.offset.0 as i64, placed.offset.1 as i64)
}

/// A splice worked out but not yet landed: the slow resampling is done, the
/// document has not been touched. `apply` is the cheap half, so the worker
/// thread can produce this and the main thread can land it as one history
/// step.
#[derive(Debug)]
pub struct Splice {
    /// Where the incoming run goes in the timeline.
    pub at: usize,
    /// Frames already in the document that the new canvas forced a redraw of,
    /// by index. Empty when the canvas did not change.
    pub existing: Vec<(usize, Frame)>,
    /// The incoming frames, fitted, in order.
    pub incoming: Vec<Frame>,
    /// How the frames already in the document moved, and so how their
    /// overlays have to move to stay on them.
    pub overlays: Placement,
}

/// The frame redrawn at `dst` under a key of its own.
pub open spec fn refit_frame(
    frame: FrameView,
    dst: (u32, u32),
    mode: FitMode,
    m: Measure,
    key: u64,
) -> FrameView {
    redrawn(frame, refitted(frame.pixels, dst, mode, m), key)
}

/// Those of the frames that are not of size `dst`, redrawn, by index. Keys
/// run from `key` on.
pub open spec fn redrawn_of(
    frames: Seq<FrameView>,
    dst: (u32, u32),
    mode: FitMode,
    measures: Seq<Measure>,
    key: u64,
) -> Seq<(usize, FrameView)>
    decreases frames.len(),
{
    if frames.len() == 0 {
        seq![]
    } else {
        let before = redrawn_of(frames.drop_last(), dst, mode, measures, key);
        let i = frames.len() - 1;
        if size_of(frames[i].pixels) == dst {
            before
        } else {
            before.push(
                (
                    i as usize,
                    refit_frame(frames[i], dst, mode, measures[i], key_after(key, before.len())),
                ),
            )
        }
    }
}

/// The frames, with those that are not of size `dst` redrawn.
pub open spec fn fitted_run(
    frames: Seq<FrameView>,
    dst: (u32, u32),
    mode: FitMode,
    measures: Seq<Measure>,
    key: u64,
) -> Seq<FrameView> {
    with_frames(frames, redrawn_of(frames, dst, mode, measures, key))
}

/// The size of a run: that of its first frame.
pub open spec fn run_size(frames: Seq<FrameView>) -> (u32, u32) {
    if frames.len() == 0 {
        (0, 0)
    } else {
        size_of(frames[0].pixels)
    }
}

/// A later key.
proof fn lemma_key_after(key: u64, a: nat, b: nat)
    ensures
        key_after(key_after(key, a), b) == key_after(key, a + b),
    decreases b,
{
    if b > 0 {
        lemma_key_after(key, a, (b - 1) as nat);
    }
}

/// Whether the frame can be redrawn at `dst`.
pub open spec fn can_refit(frame: FrameView, dst: (u32, u32)) -> bool {
    frame.wf() && resizable(
        frame.pixels.width as int,
        frame.pixels.height as int,
        dst.0 as int,
        dst.1 as int,
    )
}

/// How many of the frames are not of size `dst`.
pub open spec fn count_unfit(frames: Seq<FrameView>, dst: (u32, u32)) -> nat
    decreases frames.len(),
{
    if frames.len() == 0 {
        0
    } else {
        count_unfit(frames.drop_last(), dst) + if size_of(frames.last().pixels) == dst {
            0nat
        } else {
            1nat
        }
    }
}

proof fn lemma_count_unfit(
    frames: Seq<FrameView>,
    dst: (u32, u32),
    mode: FitMode,
    measures: Seq<Measure>,
    key: u64,
)
    ensures
        redrawn_of(frames, dst, mode, measures, key).len() == count_unfit(frames, dst),
        count_unfit(frames, dst) <= frames.len(),
    decreases frames.len(),
{
    if frames.len() > 0 {
        lemma_count_unfit(frames.drop_last(), dst, mode, measures, key);
    }
}

fn unfit(frames: &Vec<Frame>, dst: (u32, u32)) -> (r: usize)
    ensures
        r == count_unfit(views(frames@), dst),
        r <= frames@.len(),
{
    let mut r: usize = 0;
    let mut i: usize = 0;
    let ghost all = views(frames@);
    assert(all.take(0) =~= Seq::<FrameView>::empty());
    while i < frames.len()
        invariant
            i <= frames@.len(),
            all == views(frames@),
            r == count_unfit(all.take(i as int), dst),
            r <= i,
        decreases frames@.len() - i,
    {
        assert(all.take(i + 1).drop_last() =~= all.take(i as int));
        if frames[i].pixels.width != dst.0 || frames[i].pixels.height != dst.1 {
            r = r + 1;
        }
        i = i + 1;
    }
    assert(all.take(i as int) =~= all);
    r
}

/// Redraw those of the frames that are not of size `dst`, telling `progress`
/// how many are done out of `total`, `done` of them before these.
fn redraw_unfit<P: FnMut(usize, usize)>(
    frames: &Vec<Frame>,
    dst: (u32, u32),
    mode: FitMode,
    measures: &Vec<Measure>,
    done: usize,
    total: usize,
    mut progress: P,
    keys: &mut FrameKeys,
) -> (r: (Vec<(usize, Frame)>, P))
    requires
        forall|i: int| 0 <= i < frames@.len() ==> can_refit((#[trigger] frames@[i])@, dst),
        drawable(dst.0 as int, dst.1 as int),
        measures@.len() == frames@.len(),
        done + count_unfit(views(frames@), dst) <= total,
        forall|k: usize| 1 <= k <= total ==> #[trigger] call_requires(progress, (k, total)),
    ensures
        list_views(r.0@) == redrawn_of(views(frames@), dst, mode, measures@, old(keys).next),
        final(keys).next == key_after(old(keys).next, r.0@.len()),
        forall|k: int|
            0 <= k < r.0@.len() ==> (#[trigger] r.0@[k]).1.wf() && sized(r.0@[k].1@, dst.0, dst.1),
        forall|k: usize|
            done < k <= done + r.0@.len() ==> #[trigger] call_ensures(progress, (k, total), ()),
        r.1 == progress,
{
    let ghost told = progress;
    let ghost all = views(frames@);
    let mut list: Vec<(usize, Frame)> = Vec::new();
    let mut i: usize = 0;
    assert(all.take(0) =~= Seq::<FrameView>::empty());
    assert(list_views(list@) =~= seq![]);
    while i < frames.len()
        invariant
            i <= frames@.len(),
            all == views(frames@),
            progress == told,
            measures@.len() == frames@.len(),
            forall|i: int| 0 <= i < frames@.len() ==> can_refit((#[trigger] frames@[i])@, dst),
            drawable(dst.0 as int, dst.1 as int),
            done + count_unfit(all, dst) <= total,
            list@.len() == count_unfit(all.take(i as int), dst),
            list_views(list@) == redrawn_of(
                all.take(i as int),
                dst,
                mode,
                measures@,
                old(keys).next,
            ),
            keys.next == key_after(old(keys).next, list@.len()),
            forall|k: int|
                0 <= k < list@.len() ==> (#[trigger] list@[k]).1.wf() && sized(
                    list@[k].1@,
                    dst.0,
                    dst.1,
                ),
            forall|k: usize| 1 <= k <= total ==> #[trigger] call_requires(progress, (k, total)),
            forall|k: usize|
                done < k <= done + list@.len() ==> #[trigger] call_ensures(
                    progress,
                    (k, total),
                    (),
                ),
        decreases frames@.len() - i,
    {
        let ghost before = list@;
        proof {
            assert(all.take(i + 1).drop_last() =~= all.take(i as int));
            lemma_count_unfit_prefix(all, dst, i + 1);
        }
        let frame = &frames[i];
        if frame.pixels.width != dst.0 || frame.pixels.height != dst.1 {
            let pixels = refit(&frame.pixels, dst, mode, measures[i]);
            let mut produced = Frame::new(pixels, frame.delay_cs, keys);
            produced.detached = frame.detached;
            progress(done + list.len() + 1, total);
            list.push((i, produced));
            assert(list_views(list@) =~= list_views(before).push((i, produced@)));
        }
        i = i + 1;
    }
    assert(all.take(i as int) =~= all);
    (list, progress)
}

proof fn lemma_count_unfit_prefix(frames: Seq<FrameView>, dst: (u32, u32), n: int)
    requires
        0 <= n <= frames.len(),
    ensures
        count_unfit(frames.take(n), dst) <= count_unfit(frames, dst),
    decreases frames.len() - n,
{
    if n < frames.len() {
        lemma_count_unfit_prefix(frames, dst, n + 1);
        assert(frames.take(n + 1).drop_last() =~= frames.take(n));
    } else {
        assert(frames.take(n) =~= frames);
    }
}

/// Work out how `incoming` and the document's own frames both end up on one
/// canvas under `mode`. Every resample happens here, so this is the half that
/// belongs on a worker thread; `progress` is told `(done, total)` over the
/// frames that actually need redrawing. `own` and `arriving` hold the measure
/// of scaling each frame to the new canvas, `canvas_measure` that of scaling
/// the old canvas to it.
pub fn plan_splice<P: FnMut(usize, usize)>(
    doc: &Document,
    at: usize,
    incoming: Vec<Frame>,
    mode: FitMode,
    own: &Vec<Measure>,
    arriving: &Vec<Measure>,
    canvas_measure: Measure,
    progress: P,
    keys: &mut FrameKeys,
) -> (r: Splice)
    requires
        ({
            let dst = mode.canvas_of(doc@.size(), run_size(views(incoming@)));
            &&& drawable(dst.0 as int, dst.1 as int)
            &&& forall|i: int|
                0 <= i < doc.frames@.len() ==> can_refit((#[trigger] doc.frames@[i])@, dst)
            &&& forall|i: int|
                0 <= i < incoming@.len() ==> can_refit((#[trigger] incoming@[i])@, dst)
        }),
        own@.len() == doc.frames@.len(),
        arriving@.len() == incoming@.len(),
        doc.frames@.len() + incoming@.len() <= usize::MAX,
        forall|k: usize, total: usize|
            1 <= k <= total <= doc.frames@.len() + incoming@.len() ==> #[trigger] call_requires(
                progress,
                (k, total),
            ),
    ensures
        ({
            let dst = mode.canvas_of(doc@.size(), run_size(views(incoming@)));
            let existing = redrawn_of(doc@.frames, dst, mode, own@, old(keys).next);
            let total = count_unfit(doc@.frames, dst) + count_unfit(views(incoming@), dst);
            &&& r.at == at
            &&& list_views(r.existing@) == existing
            &&& views(r.incoming@) == fitted_run(
                views(incoming@),
                dst,
                mode,
                arriving@,
                key_after(old(keys).next, existing.len()),
            )
            &&& r.overlays == mode.placed(doc@.size(), dst, canvas_measure)
            &&& final(keys).next == key_after(old(keys).next, total)
            &&& r.ready(dst)
            &&& forall|k: usize|
                1 <= k <= total ==> #[trigger] call_ensures(progress, (k, total as usize), ())
        }),
{
    let canvas_before = doc.size();
    let size = if incoming.len() == 0 {
        (0, 0)
    } else {
        (incoming[0].pixels.width, incoming[0].pixels.height)
    };
    let dst = mode.canvas(canvas_before, size);
    let ghost run = views(incoming@);
    let first: usize = unfit(&doc.frames, dst);
    let second: usize = unfit(&incoming, dst);
    let total: usize = first + second;
    let ghost key = old(keys).next;
    let ghost told = progress;
    let (existing, progress) = redraw_unfit(
        &doc.frames,
        dst,
        mode,
        own,
        0,
        total,
        progress,
        keys,
    );
    proof {
        lemma_count_unfit(doc@.frames, dst, mode, own@, key);
    }
    let ghost key2 = keys.next;
    let (fitted, progress) = redraw_unfit(
        &incoming,
        dst,
        mode,
        arriving,
        first,
        total,
        progress,
        keys,
    );
    proof {
        lemma_count_unfit(run, dst, mode, arriving@, key2);
        lemma_key_after(key, first as nat, second as nat);
        lemma_refit_all(run, dst, mode, arriving@, key2);
    }
    // Put what was redrawn of the incoming run back into the run.
    let mut held = Document::from_frames(incoming);
    assert(held@.frames_sound()) by {
        assert forall|i: int| 0 <= i < held@.frames.len() implies (
        #[trigger] held@.frames[i]).wf() by {
            assert(can_refit(incoming@[i]@, dst));
        }
    }
    held.put_frames(fitted);
    let incoming = held.frames;
    let r = Splice {
        at,
        existing,
        incoming,
        overlays: mode.placement(canvas_before, dst, canvas_measure),
    };
    proof {
        lemma_all_fit(run, list_views(fitted@), dst, mode, arriving@, key2);
        assert forall|i: int| 0 <= i < r.incoming@.len() implies (#[trigger] r.incoming@[i]).wf()
            && sized(r.incoming@[i]@, dst.0, dst.1) by {
            assert(held@.frames[i] == r.incoming@[i]@);
        }
    }
    r
}

/// What the redrawn list leaves of the run is of the size asked for.
proof fn lemma_all_fit(
    frames: Seq<FrameView>,
    list: Seq<(usize, FrameView)>,
    dst: (u32, u32),
    mode: FitMode,
    measures: Seq<Measure>,
    key: u64,
)
    requires
        frames.len() <= usize::MAX,
        list == redrawn_of(frames, dst, mode, measures, key),
        forall|k: int| 0 <= k < list.len() ==> sized((#[trigger] list[k]).1, dst.0, dst.1),
    ensures
        with_frames(frames, list).len() == frames.len(),
        forall|i: int|
            0 <= i < frames.len() ==> sized(#[trigger] with_frames(frames, list)[i], dst.0, dst.1),
{
    lemma_with_frames(frames, list, dst);
    lemma_refit_all(frames, dst, mode, measures, key);
}

/// Putting frames of one size in leaves each frame as it was or of that size,
/// and of that size if it is in the list.
proof fn lemma_with_frames(
    frames: Seq<FrameView>,
    list: Seq<(usize, FrameView)>,
    dst: (u32, u32),
)
    requires
        forall|k: int| 0 <= k < list.len() ==> sized((#[trigger] list[k]).1, dst.0, dst.1),
    ensures
        with_frames(frames, list).len() == frames.len(),
        forall|i: int|
            0 <= i < frames.len() ==> sized(#[trigger] with_frames(frames, list)[i], dst.0, dst.1)
                || (with_frames(frames, list)[i] == frames[i] && !listed(list, i)),
    decreases list.len(),
{
    if list.len() > 0 {
        let head = list.drop_last();
        assert forall|k: int| 0 <= k < head.len() implies sized(
            (#[trigger] head[k]).1,
            dst.0,
            dst.1,
        ) by {
            assert(head[k] == list[k]);
        }
        lemma_with_frames(frames, head, dst);
        let last = list[list.len() - 1];
        assert(sized(last.1, dst.0, dst.1));
        assert forall|i: int| 0 <= i < frames.len() implies sized(
            #[trigger] with_frames(frames, list)[i],
            dst.0,
            dst.1,
        ) || (with_frames(frames, list)[i] == frames[i] && !listed(list, i)) by {
            let w = with_frames(frames, head)[i];
            if last.0 != i && !sized(w, dst.0, dst.1) {
                assert(!listed(head, i));
                if listed(list, i) {
                    let k = choose|k: int| 0 <= k < list.len() && (#[trigger] list[k]).0 == i;
                    assert(head[k].0 == i);
                }
            }
        }
    }
}

/// Whether the list has a frame for index `i`.
pub open spec fn listed(list: Seq<(usize, FrameView)>, i: int) -> bool {
    exists|k: int| 0 <= k < list.len() && (#[trigger] list[k]).0 == i
}

/// Every frame that is not of size `dst` is in the redrawn list.
proof fn lemma_refit_all(
    frames: Seq<FrameView>,
    dst: (u32, u32),
    mode: FitMode,
    measures: Seq<Measure>,
    key: u64,
)
    requires
        frames.len() <= usize::MAX,
    ensures
        forall|i: int|
            0 <= i < frames.len() && !sized(#[trigger] frames[i], dst.0, dst.1) ==> listed(
                redrawn_of(frames, dst, mode, measures, key),
                i,
            ),
    decreases frames.len(),
{
    if frames.len() > 0 {
        let head = frames.drop_last();
        let before = redrawn_of(head, dst, mode, measures, key);
        let all = redrawn_of(frames, dst, mode, measures, key);
        lemma_refit_all(head, dst, mode, measures, key);
        assert forall|i: int| 0 <= i < frames.len() && !sized(
            #[trigger] frames[i],
            dst.0,
            dst.1,
        ) implies listed(all, i) by {
            if i < head.len() {
                assert(head[i] == frames[i]);
                assert(listed(before, i));
                let k = choose|k: int| 0 <= k < before.len() && (#[trigger] before[k]).0 == i;
                assert(all[k].0 == i);
            } else {
                assert(all[before.len() as int].0 == i);
            }
        }
    }
}

impl Splice {
    /// Every frame of the splice is whole and of the canvas size.
    pub open spec fn ready(self, canvas: (u32, u32)) -> bool {
        &&& forall|k: int|
            0 <= k < self.existing@.len() ==> (#[trigger] self.existing@[k]).1.wf() && sized(
                self.existing@[k].1@,
                canvas.0,
                canvas.1,
            )
        &&& forall|k: int|
            0 <= k < self.incoming@.len() ==> (#[trigger] self.incoming@[k]).wf() && sized(
                self.incoming@[k]@,
                canvas.0,
                canvas.1,
            )
    }

    /// The document after the splice landed.
    pub open spec fn landed(self, doc: DocView, boxes: Seq<OverlayBox>) -> DocView {
        DocView {
            frames: with_frames(doc.frames, list_views(self.existing@)),
            overlays: scaled_overlays(doc.overlays, boxes),
            next_id: doc.next_id,
        }.with_foreign_run(self.at as int, views(self.incoming@))
    }

    /// Land the splice: redrawn frames replace theirs, the incoming run goes
    /// in at `at`, and every overlay follows the canvas it was drawn on:
    /// `boxes` holds each one's box and text size, scaled and moved by
    /// `overlays`. The answer is how many frames the document gained, for the
    /// history step.
    pub fn apply(self, doc: &mut Document, boxes: &Vec<OverlayBox>) -> (added: usize)
        requires
            old(doc)@.frames_sound(),
            exists|canvas: (u32, u32)| self.ready(canvas),
            boxes@.len() == old(doc)@.overlays.len(),
            old(doc)@.ranges_fit(self.incoming@.len() as int),
        ensures
            final(doc)@ == self.landed(old(doc)@, boxes@),
            added == self.incoming@.len(),
            final(doc)@.frames_sound(),
    {
        let ghost before = doc@;
        let Splice { at, existing, incoming, overlays } = self;
        doc.put_frames(existing);
        doc.scale_overlays(boxes);
        let ghost mid = doc@;
        assert(doc@.ranges_fit(incoming@.len() as int)) by {
            assert forall|i: int| 0 <= i < mid.overlays.len() implies (
            #[trigger] mid.overlays[i]).range.start + incoming@.len() <= usize::MAX
                && mid.overlays[i].range.end + incoming@.len() <= usize::MAX by {
                assert(mid.overlays[i].range == before.overlays[i].range);
            }
        }
        let added: usize = incoming.len();
        doc.insert_foreign_frames_at(at, incoming);
        assert(doc@.frames_sound()) by {
            let after = doc@.frames;
            let at = clamped(at as int, mid.frames.len());
            assert forall|i: int| 0 <= i < after.len() implies (#[trigger] after[i]).wf() by {
                if added > 0 && i >= at && i < at + added {
                    assert(after[i] == incoming@[i - at]@);
                } else if added > 0 && i >= at + added {
                    assert(after[i] == mid.frames[i - added]);
                } else {
                    assert(after[i] == mid.frames[i]);
                }
            }
        }
        added
    }
}

/// After a planned splice has landed on the document it was planned for,
/// every frame of the document is of one size: the canvas.
pub proof fn law_splice_leaves_one_canvas(
    doc: DocView,
    splice: Splice,
    boxes: Seq<OverlayBox>,
    canvas: (u32, u32),
    mode: FitMode,
    own: Seq<Measure>,
    key: u64,
)
    requires
        doc.frames.len() <= usize::MAX,
        splice.ready(canvas),
        list_views(splice.existing@) == redrawn_of(doc.frames, canvas, mode, own, key),
    ensures
        forall|i: int|
            0 <= i < splice.landed(doc, boxes).frames.len() ==> sized(
                #[trigger] splice.landed(doc, boxes).frames[i],
                canvas.0,
                canvas.1,
            ),
{
    let list = list_views(splice.existing@);
    assert forall|k: int| 0 <= k < list.len() implies sized(
        (#[trigger] list[k]).1,
        canvas.0,
        canvas.1,
    ) by {
        assert(sized(splice.existing@[k].1@, canvas.0, canvas.1));
    }
    lemma_all_fit(doc.frames, list, canvas, mode, own, key);
    let mid = with_frames(doc.frames, list);
    let run = views(splice.incoming@);
    let at = clamped(splice.at as int, mid.len());
    let after = splice.landed(doc, boxes).frames;
    assert forall|i: int| 0 <= i < after.len() implies sized(
        #[trigger] after[i],
        canvas.0,
        canvas.1,
    ) by {
        if run.len() > 0 && at <= i < at + run.len() {
            assert(after[i] == splice.incoming@[i - at]@);
        } else if run.len() > 0 && i >= at + run.len() {
            assert(after[i] == mid[i - run.len()]);
        } else {
            assert(after[i] == mid[i]);
        }
    }
}

/// A splice of frames that are of the canvas size already redraws nothing.
pub proof fn law_matching_splice_redraws_nothing(
    frames: Seq<FrameView>,
    dst: (u32, u32),
    mode: FitMode,
    measures: Seq<Measure>,
    key: u64,
)
    requires
        forall|i: int| 0 <= i < frames.len() ==> size_of((#[trigger] frames[i]).pixels) == dst,
    ensures
        redrawn_of(frames, dst, mode, measures, key).len() == 0,
        fitted_run(frames, dst, mode, measures, key) == frames,
    decreases frames.len(),
{
    if frames.len() > 0 {
        let head = frames.drop_last();
        assert forall|i: int| 0 <= i < head.len() implies size_of((#[trigger] head[i]).pixels)
            == dst by {
            assert(head[i] == frames[i]);
        }
        law_matching_splice_redraws_nothing(head, dst, mode, measures, key);
    }
}

/// Where the aspect ratio is kept, the picture lies on the canvas with margins
/// on opposite sides that differ by a pixel at most, the larger one behind, and
/// it has the size it was measured at, as far as the canvas has room for it.
pub proof fn law_a_kept_aspect_is_centered(
    mode: FitMode,
    src: (u32, u32),
    dst: (u32, u32),
    m: Measure,
)
    requires
        mode == FitMode::Pad || mode == FitMode::GrowPad,
        src != dst,
        src.0 > 0 && src.1 > 0 && dst.0 > 0 && dst.1 > 0,
    ensures
        ({
            let p = mode.placed(src, dst, m);
            &&& 1 <= p.size.0 <= dst.0
            &&& 1 <= p.size.1 <= dst.1
            &&& 0 <= (dst.0 - p.offset.0 - p.size.0) - p.offset.0 <= 1
            &&& 0 <= (dst.1 - p.offset.1 - p.size.1) - p.offset.1 <= 1
            &&& 1 <= m.fitted.0 <= dst.0 ==> p.size.0 == m.fitted.0
            &&& 1 <= m.fitted.1 <= dst.1 ==> p.size.1 == m.fitted.1
            &&& m.fitted.0 > dst.0 ==> p.size.0 == dst.0
            &&& m.fitted.1 > dst.1 ==> p.size.1 == dst.1
            &&& p.scale.0 == m.factor && p.scale.1 == m.factor
        }),
{
}

/// A stretched picture fills the canvas, and one that has the canvas size
/// already is not scaled at all.
pub proof fn law_a_stretch_fills_the_canvas(
    mode: FitMode,
    src: (u32, u32),
    dst: (u32, u32),
    m: Measure,
)
    requires
        src.0 > 0 && src.1 > 0 && dst.0 > 0 && dst.1 > 0,
    ensures
        ({
            let p = mode.placed(src, dst, m);
            &&& src == dst || mode == FitMode::Stretch || mode == FitMode::GrowStretch ==> p.offset
                == (0u32, 0u32) && p.size == dst
            &&& src == dst ==> p.scale.0.bits == 0x3f80_0000 && p.scale.1.bits == 0x3f80_0000
            &&& src != dst && (mode == FitMode::Stretch || mode == FitMode::GrowStretch)
                ==> p.scale == m.stretch
        }),
{
}

/// The canvas is always one of the two, an empty one giving way; of two that
/// are not empty it is the incoming one exactly where the mode grows the canvas.
pub proof fn law_the_mode_decides_whose_canvas_it_is(
    mode: FitMode,
    doc: (u32, u32),
    incoming: (u32, u32),
)
    ensures
        ({
            let canvas = mode.canvas_of(doc, incoming);
            let grows = mode == FitMode::GrowPad || mode == FitMode::GrowStretch;
            &&& doc.0 == 0 || doc.1 == 0 ==> canvas == incoming
            &&& doc.0 > 0 && doc.1 > 0 && (incoming.0 == 0 || incoming.1 == 0) ==> canvas == doc
            &&& doc.0 > 0 && doc.1 > 0 && incoming.0 > 0 && incoming.1 > 0 && grows ==> canvas
                == incoming
            &&& doc.0 > 0 && doc.1 > 0 && incoming.0 > 0 && incoming.1 > 0 && !grows ==> canvas
                == doc
        }),
{
}

/// A refitted picture shows the whole picture, resampled to the size it has on
/// the canvas, at its place, and nothing around it.
pub proof fn law_a_refit_leaves_its_margins_clear(
    p: Picture,
    dst: (u32, u32),
    mode: FitMode,
    m: Measure,
    x: int,
    y: int,
    c: int,
)
    requires
        0 <= x < dst.0,
        0 <= y < dst.1,
        0 <= c < 4,
        p.width > 0 && p.height > 0,
        ({
            let size = mode.placed((p.width, p.height), dst, m).size;
            let small = resampled(p, size.0, size.1);
            small.wf() && small.width == size.0 && small.height == size.1
        }),
    ensures
        ({
            let placed = mode.placed((p.width, p.height), dst, m);
            let (left, top) = (placed.offset.0 as int, placed.offset.1 as int);
            let (w, h) = (placed.size.0 as int, placed.size.1 as int);
            let small = resampled(p, placed.size.0, placed.size.1);
            let r = refitted(p, dst, mode, m);
            &&& r.width == dst.0
            &&& r.height == dst.1
            &&& r.data[(y * dst.0 + x) * 4 + c] == if left <= x && x < left + w && top <= y && y
                < top + h {
                small.data[((y - top) * w + (x - left)) * 4 + c]
            } else {
                0
            }
        }),
{
    let placed = mode.placed((p.width, p.height), dst, m);
    let small = resampled(p, placed.size.0, placed.size.1);
    let blank = Picture::blank(dst.0, dst.1);
    assert(0 <= dst.0 * dst.1 * 4) by (nonlinear_arith);
    if placed.size == dst {
        assert(placed.offset == (0u32, 0u32));
    } else {
        crate::raster::lemma_offset_inside(dst.0 as int, dst.1 as int, x, y);
        law_a_picture_covers_what_is_under_it(
            blank,
            small,
            placed.offset.0 as int,
            placed.offset.1 as int,
            x,
            y,
            c,
        );
    }
}

/// Redrawing lists each frame that is not of the canvas size once, under its
/// own index and with its own measure, and changes nothing of it but the pixels.
proof fn lemma_redrawn_entries(
    frames: Seq<FrameView>,
    dst: (u32, u32),
    mode: FitMode,
    measures: Seq<Measure>,
    key: u64,
)
    requires
        frames.len() <= usize::MAX,
    ensures
        ({
            let list = redrawn_of(frames, dst, mode, measures, key);
            &&& forall|a: int, b: int|
                0 <= a < b < list.len() ==> (#[trigger] list[a]).0 < (#[trigger] list[b]).0
            &&& forall|k: int|
                0 <= k < list.len() ==> {
                    let i = (#[trigger] list[k]).0 as int;
                    &&& 0 <= i < frames.len()
                    &&& (frames[i].pixels.width, frames[i].pixels.height) != dst
                    &&& list[k].1.pixels == refitted(frames[i].pixels, dst, mode, measures[i])
                    &&& list[k].1.delay_cs == frames[i].delay_cs
                    &&& list[k].1.detached == frames[i].detached
                }
        }),
    decreases frames.len(),
{
    if frames.len() > 0 {
        let head = frames.drop_last();
        lemma_redrawn_entries(head, dst, mode, measures, key);
        let before = redrawn_of(head, dst, mode, measures, key);
        let list = redrawn_of(frames, dst, mode, measures, key);
        let last = frames.len() - 1;
        assert forall|k: int| 0 <= k < list.len() implies {
            let i = (#[trigger] list[k]).0 as int;
            &&& 0 <= i < frames.len()
            &&& (frames[i].pixels.width, frames[i].pixels.height) != dst
            &&& list[k].1.pixels == refitted(frames[i].pixels, dst, mode, measures[i])
            &&& list[k].1.delay_cs == frames[i].delay_cs
            &&& list[k].1.detached == frames[i].detached
        } by {
            if k < before.len() {
                assert(before[k] == list[k]);
                assert(head[before[k].0 as int] == frames[list[k].0 as int]);
            }
        }
        assert forall|a: int, b: int| 0 <= a < b < list.len() implies (#[trigger] list[a]).0 < (
        #[trigger] list[b]).0 by {
            assert(before[a] == list[a]);
            if b < before.len() {
                assert(before[b] == list[b]);
            }
        }
    }
}

/// A fitted run has the frames of the run in their order: those of the canvas
/// size as they were, the others refitted by their own measure, with their
/// delay and whether they are detached kept.
pub proof fn law_a_fitted_run_keeps_its_frames(
    frames: Seq<FrameView>,
    dst: (u32, u32),
    mode: FitMode,
    measures: Seq<Measure>,
    key: u64,
    i: int,
)
    requires
        frames.len() <= usize::MAX,
        0 <= i < frames.len(),
    ensures
        ({
            let run = fitted_run(frames, dst, mode, measures, key);
            &&& run.len() == frames.len()
            &&& (frames[i].pixels.width, frames[i].pixels.height) == dst ==> run[i] == frames[i]
            &&& (frames[i].pixels.width, frames[i].pixels.height) != dst ==> run[i].pixels
                == refitted(frames[i].pixels, dst, mode, measures[i])
            &&& run[i].delay_cs == frames[i].delay_cs
            &&& run[i].detached == frames[i].detached
        }),
{
    let list = redrawn_of(frames, dst, mode, measures, key);
    lemma_redrawn_entries(frames, dst, mode, measures, key);
    lemma_refit_all(frames, dst, mode, measures, key);
    law_frames_are_put_in_their_places(frames, list, i);
    if (frames[i].pixels.width, frames[i].pixels.height) != dst {
        assert(!sized(frames[i], dst.0, dst.1));
        let k = choose|k: int| 0 <= k < list.len() && (#[trigger] list[k]).0 == i;
    }
}

} // verus!
