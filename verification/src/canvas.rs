//! Changing what the frames show: crop, resize, zoom and shrink.

use vstd::prelude::*;

use crate::document::{DocView, Document};
use crate::model::{
    new_frame, next_key, Frame, FrameKeys, FrameView, Overlay, OverlayKind, TextOverlay, Transform,
};
use crate::raster::{drawable, resampled, resizable, resize, Filter, Picture, Raster};
use crate::scope::picks;
use crate::single::Single;

verus! {

/// A rectangle of pixels.
#[derive(Clone, Copy, PartialEq, Eq, Debug, Structural)]
pub struct Rect {
    pub x: u32,
    pub y: u32,
    pub w: u32,
    pub h: u32,
}

/// The rectangle brought inside a `cw` by `ch` canvas, a pixel wide and tall
/// at least.
pub open spec fn clamp_rect(rect: Rect, cw: u32, ch: u32) -> Rect {
    let x = if rect.x < cw {
        rect.x as int
    } else if cw > 0 {
        cw - 1
    } else {
        0
    };
    let y = if rect.y < ch {
        rect.y as int
    } else if ch > 0 {
        ch - 1
    } else {
        0
    };
    Rect {
        x: x as u32,
        y: y as u32,
        w: clamp_side(rect.w as int, cw - x) as u32,
        h: clamp_side(rect.h as int, ch - y) as u32,
    }
}

/// At most `room`, and at least one.
pub open spec fn clamp_side(side: int, room: int) -> int {
    let side = if side < room {
        side
    } else {
        room
    };
    if side < 1 {
        1
    } else {
        side
    }
}

pub fn clamped_rect(rect: Rect, cw: u32, ch: u32) -> (r: Rect)
    ensures
        r == clamp_rect(rect, cw, ch),
        cw > 0 && ch > 0 ==> r.x + r.w <= cw && r.y + r.h <= ch,
{
    let x: u32 = if rect.x < cw {
        rect.x
    } else if cw > 0 {
        cw - 1
    } else {
        0
    };
    let y: u32 = if rect.y < ch {
        rect.y
    } else if ch > 0 {
        ch - 1
    } else {
        0
    };
    let w: u32 = if rect.w < cw - x {
        rect.w
    } else {
        cw - x
    };
    let h: u32 = if rect.h < ch - y {
        rect.h
    } else {
        ch - y
    };
    Rect {
        x,
        y,
        w: if w < 1 {
            1
        } else {
            w
        },
        h: if h < 1 {
            1
        } else {
            h
        },
    }
}

/// The key handed out `k` keys after `key`.
pub open spec fn key_after(key: u64, k: nat) -> u64
    decreases k,
{
    if k == 0 {
        key
    } else {
        next_key(key_after(key, (k - 1) as nat))
    }
}

/// The frame with other pixels, as one made anew under `key`.
pub open spec fn redrawn(frame: FrameView, pixels: Picture, key: u64) -> FrameView {
    new_frame(pixels, frame.delay_cs, key).with_detached(frame.detached)
}

/// The picture a crop to `r` makes of a frame's. Pixels outside that frame
/// are transparent.
pub open spec fn cropped_picture(p: Picture, r: Rect) -> Picture {
    p.window(r.x, r.y, r.w, r.h)
}

/// The picture with `r` of it blown up to fill a `cw` by `ch` canvas.
pub open spec fn zoomed_picture(p: Picture, r: Rect, cw: u32, ch: u32) -> Picture {
    resampled(cropped_picture(p, r), cw, ch)
}

/// The picture with everything outside `r` transparent, on a `cw` by `ch`
/// canvas.
pub open spec fn shrunk_picture(p: Picture, r: Rect, cw: u32, ch: u32) -> Picture {
    Picture::blank(cw, ch).overlaid(cropped_picture(p, r), r.x as int, r.y as int)
}

/// The indices below `n`, in the order given.
pub open spec fn below(indices: Seq<usize>, n: nat) -> Seq<usize>
    decreases indices.len(),
{
    if indices.len() == 0 {
        seq![]
    } else if indices.last() < n {
        below(indices.drop_last(), n).push(indices.last())
    } else {
        below(indices.drop_last(), n)
    }
}

/// A list of frames by index, as what each holds.
pub open spec fn list_views(list: Seq<(usize, Frame)>) -> Seq<(usize, FrameView)> {
    Seq::new(list.len(), |k: int| (list[k].0, list[k].1@))
}

/// The frames with each of the list put in its place, the later over the
/// earlier. One past the end is left out.
pub open spec fn with_frames(
    frames: Seq<FrameView>,
    list: Seq<(usize, FrameView)>,
) -> Seq<FrameView>
    decreases list.len(),
{
    if list.len() == 0 {
        frames
    } else {
        let before = with_frames(frames, list.drop_last());
        if list.last().0 < before.len() {
            before.update(list.last().0 as int, list.last().1)
        } else {
            before
        }
    }
}

impl DocView {
    /// The frames a crop makes, each under a key of its own from `key` on.
    pub open spec fn cropped_list(self, rect: Rect, key: u64) -> Seq<(usize, FrameView)> {
        let (cw, ch) = self.size();
        let r = clamp_rect(rect, cw, ch);
        if cw == 0 || ch == 0 {
            seq![]
        } else {
            Seq::new(
                self.frames.len(),
                |i: int|
                    (
                        i as usize,
                        redrawn(
                            self.frames[i],
                            cropped_picture(self.frames[i].pixels, r),
                            key_after(key, i as nat),
                        ),
                    ),
            )
        }
    }

    /// The frames a resize of the whole document makes.
    pub open spec fn resized_list(self, w: u32, h: u32, key: u64) -> Seq<(usize, FrameView)> {
        Seq::new(
            self.frames.len(),
            |i: int|
                (
                    i as usize,
                    redrawn(
                        self.frames[i],
                        resampled(self.frames[i].pixels, w, h),
                        key_after(key, i as nat),
                    ),
                ),
        )
    }

    /// The frames a zoom of the frames at `indices` makes.
    pub open spec fn zoomed_list(self, indices: Seq<usize>, rect: Rect, key: u64) -> Seq<
        (usize, FrameView),
    > {
        let (cw, ch) = self.size();
        let r = clamp_rect(rect, cw, ch);
        let wanted = below(indices, self.frames.len());
        if cw == 0 || ch == 0 {
            seq![]
        } else {
            Seq::new(
                wanted.len(),
                |k: int|
                    (
                        wanted[k],
                        redrawn(
                            self.frames[wanted[k] as int],
                            zoomed_picture(self.frames[wanted[k] as int].pixels, r, cw, ch),
                            key_after(key, k as nat),
                        ),
                    ),
            )
        }
    }

    /// The frames a shrink of the frames at `indices` makes.
    pub open spec fn shrunk_list(self, indices: Seq<usize>, rect: Rect, key: u64) -> Seq<
        (usize, FrameView),
    > {
        let (cw, ch) = self.size();
        let r = clamp_rect(rect, cw, ch);
        let wanted = below(indices, self.frames.len());
        if cw == 0 || ch == 0 {
            seq![]
        } else {
            Seq::new(
                wanted.len(),
                |k: int|
                    (
                        wanted[k],
                        redrawn(
                            self.frames[wanted[k] as int],
                            shrunk_picture(self.frames[wanted[k] as int].pixels, r, cw, ch),
                            key_after(key, k as nat),
                        ),
                    ),
            )
        }
    }

    /// Whether the canvas can be filled by resampling a part of it.
    pub open spec fn canvas_resizable(self) -> bool {
        resizable(
            self.size().0 as int,
            self.size().1 as int,
            self.size().0 as int,
            self.size().1 as int,
        )
    }

    /// Whether the part of the canvas that `rect` keeps can be a frame, where
    /// the canvas has an area.
    pub open spec fn part_drawable(self, rect: Rect) -> bool {
        let (cw, ch) = self.size();
        let r = clamp_rect(rect, cw, ch);
        cw > 0 && ch > 0 ==> drawable(r.w as int, r.h as int)
    }

    /// Whether every frame can be resampled to `w` by `h`.
    pub open spec fn frames_resizable(self, w: u32, h: u32) -> bool {
        &&& drawable(w as int, h as int)
        &&& forall|i: int|
            0 <= i < self.frames.len() ==> resizable(
                (#[trigger] self.frames[i]).pixels.width as int,
                self.frames[i].pixels.height as int,
                w as int,
                h as int,
            )
    }
}

/// Whether the frame's pixels are a `w` by `h` picture.
pub open spec fn sized(frame: FrameView, w: u32, h: u32) -> bool {
    frame.pixels.width == w && frame.pixels.height == h
}

/// A frame that is not in the list stays as it was, and the first frame keeps
/// its size if those of the list have it.
proof fn lemma_untouched(
    frames: Seq<FrameView>,
    list: Seq<(usize, FrameView)>,
    indices: Seq<usize>,
    w: u32,
    h: u32,
)
    requires
        forall|k: int| 0 <= k < list.len() ==> picks(indices, (#[trigger] list[k]).0 as int),
        forall|k: int| 0 <= k < list.len() ==> sized((#[trigger] list[k]).1, w, h),
    ensures
        with_frames(frames, list).len() == frames.len(),
        forall|i: int|
            0 <= i < frames.len() && !picks(indices, i) ==> #[trigger] with_frames(frames, list)[i]
                == frames[i],
        forall|i: int|
            0 <= i < frames.len() ==> #[trigger] with_frames(frames, list)[i] == frames[i] || sized(
                with_frames(frames, list)[i],
                w,
                h,
            ),
    decreases list.len(),
{
    if list.len() > 0 {
        let head = list.drop_last();
        assert forall|k: int| 0 <= k < head.len() implies picks(
            indices,
            (#[trigger] head[k]).0 as int,
        ) && sized(head[k].1, w, h) by {
            assert(head[k] == list[k]);
        }
        lemma_untouched(frames, head, indices, w, h);
        let last = list[list.len() - 1];
        assert(picks(indices, last.0 as int) && sized(last.1, w, h));
        assert(with_frames(frames, head).len() == frames.len());
    }
}

/// A list of every frame replaces every frame.
proof fn lemma_all_replaced(frames: Seq<FrameView>, list: Seq<(usize, FrameView)>)
    requires
        list.len() <= frames.len(),
        forall|k: int| 0 <= k < list.len() ==> (#[trigger] list[k]).0 == k,
    ensures
        with_frames(frames, list).len() == frames.len(),
        forall|i: int|
            0 <= i < frames.len() ==> #[trigger] with_frames(frames, list)[i] == if i < list.len() {
                list[i].1
            } else {
                frames[i]
            },
    decreases list.len(),
{
    if list.len() > 0 {
        let head = list.drop_last();
        assert forall|k: int| 0 <= k < head.len() implies (#[trigger] head[k]).0 == k by {
            assert(head[k] == list[k]);
        }
        lemma_all_replaced(frames, head);
        assert(list[list.len() - 1].0 == list.len() - 1);
    }
}

/// The indices kept are among those given.
proof fn lemma_below(indices: Seq<usize>, n: nat)
    ensures
        forall|k: int|
            0 <= k < below(indices, n).len() ==> picks(indices, #[trigger] below(indices, n)[k] as int),
    decreases indices.len(),
{
    if indices.len() > 0 {
        let head = indices.drop_last();
        lemma_below(head, n);
        assert forall|k: int| 0 <= k < below(indices, n).len() implies picks(
            indices,
            #[trigger] below(indices, n)[k] as int,
        ) by {
            let x = below(indices, n)[k];
            if k < below(head, n).len() {
                assert(below(head, n)[k] == x);
                let w = choose|w: int| 0 <= w < head.len() && #[trigger] head[w] == x;
                assert(indices[w] == x);
            } else {
                assert(indices[indices.len() - 1] == x);
            }
        }
    }
}

proof fn lemma_part_fits(cw: int, ch: int, w: int, h: int)
    requires
        0 <= w <= cw,
        0 <= h <= ch,
    ensures
        0 <= w * h <= cw * ch,
        w * ch <= cw * ch,
{
    assert(0 <= w * h <= cw * ch && w * ch <= cw * ch) by (nonlinear_arith)
        requires
            0 <= w <= cw,
            0 <= h <= ch,
    ;
}

/// The indices below `n`.
fn indices_below(indices: &Vec<usize>, n: usize) -> (r: Vec<usize>)
    ensures
        r@ == below(indices@, n as nat),
        forall|k: int| 0 <= k < r@.len() ==> #[trigger] r@[k] < n,
        r@.len() <= indices@.len(),
{
    let mut r: Vec<usize> = Vec::new();
    let mut i: usize = 0;
    assert(indices@.take(0) =~= Seq::<usize>::empty());
    while i < indices.len()
        invariant
            i <= indices@.len(),
            r@ == below(indices@.take(i as int), n as nat),
            forall|k: int| 0 <= k < r@.len() ==> #[trigger] r@[k] < n,
            r@.len() <= i,
        decreases indices@.len() - i,
    {
        assert(indices@.take(i + 1).drop_last() =~= indices@.take(i as int));
        if indices[i] < n {
            r.push(indices[i]);
        }
        i = i + 1;
    }
    assert(indices@.take(i as int) =~= indices@);
    r
}

fn redraw(frame: &Frame, pixels: Raster, keys: &mut FrameKeys) -> (r: Frame)
    requires
        pixels.wf(),
        pixels@.within_limit(),
    ensures
        r@ == redrawn(frame@, pixels@, old(keys).next),
        r.wf(),
        final(keys).next == next_key(old(keys).next),
{
    let mut produced = Frame::new(pixels, frame.delay_cs, keys);
    produced.detached = frame.detached;
    produced
}

impl Document {
    /// Whether the canvas has no area.
    fn canvas_rect(&self, rect: Rect) -> (r: Option<(Rect, u32, u32)>)
        requires
            self@.frames_sound(),
        ensures
            ({
                let (cw, ch) = self@.size();
                match r {
                    Some((r, w, h)) => {
                        &&& (w, h) == (cw, ch)
                        &&& cw > 0 && ch > 0
                        &&& r == clamp_rect(rect, cw, ch)
                        &&& r.x + r.w <= cw && r.y + r.h <= ch
                        &&& drawable(cw as int, ch as int)
                        &&& cw * ch * 4 <= usize::MAX
                        &&& r.w * r.h * 4 <= usize::MAX
                    },
                    None => cw == 0 || ch == 0,
                }
            }),
    {
        let (cw, ch) = self.size();
        if cw == 0 || ch == 0 {
            return None;
        }
        let r = clamped_rect(rect, cw, ch);
        proof {
            assert(self@.frames[0].wf());
            assert(self.frames@[0].pixels.data.len() == cw * ch * 4);
            lemma_part_fits(cw as int, ch as int, r.w as int, r.h as int);
        }
        Some((r, cw, ch))
    }

    /// The frames a crop would produce, as `(index, frame)` pairs, the way
    /// `resized_frames` does for a resize — the slow half a background
    /// worker runs, since every frame changes together and a few hundred of
    /// them is not instant. `progress` is told `(done, total)` once per
    /// finished frame.
    pub fn cropped_frames<P: FnMut(usize, usize)>(
        &self,
        rect: Rect,
        mut progress: P,
        keys: &mut FrameKeys,
    ) -> (r: Vec<(usize, Frame)>)
        requires
            self@.frames_sound(),
            self@.part_drawable(rect),
            forall|k: usize, total: usize|
                1 <= k <= total && total == self@.frames.len() ==> #[trigger] call_requires(
                    progress,
                    (k, total),
                ),
        ensures
            list_views(r@) == self@.cropped_list(rect, old(keys).next),
            final(keys).next == key_after(old(keys).next, r@.len()),
            forall|k: int| 0 <= k < r@.len() ==> (#[trigger] r@[k]).1.wf() && sized(r@[k].1@, clamp_rect(rect, self@.size().0, self@.size().1).w, clamp_rect(rect, self@.size().0, self@.size().1).h),
            forall|k: usize|
                1 <= k <= r@.len() ==> #[trigger] call_ensures(progress, (k, r@.len() as usize), ()),
    {
        let ghost told = progress;
        let mut list: Vec<(usize, Frame)> = Vec::new();
        let (r, cw, ch) = match self.canvas_rect(rect) {
            Some(found) => found,
            None => {
                assert(list_views(list@) =~= seq![]);
                return list;
            },
        };
        let total: usize = self.frames.len();
        let mut i: usize = 0;
        let ghost want = self@.cropped_list(rect, old(keys).next);
        while i < total
            invariant
                i <= total,
                total == self.frames@.len(),
                self@.frames_sound(),
                want == self@.cropped_list(rect, old(keys).next),
                self@.size() == (cw, ch),
                cw > 0,
                ch > 0,
                r == clamp_rect(rect, cw, ch),
                drawable(r.w as int, r.h as int),
                r.x + r.w <= cw,
                r.y + r.h <= ch,
                r.w * r.h * 4 <= usize::MAX,
                list@.len() == i,
                progress == told,
                keys.next == key_after(old(keys).next, i as nat),
                forall|k: int|
                    0 <= k < i ==> (#[trigger] list@[k]).1.wf() && sized(
                        list@[k].1@,
                        clamp_rect(rect, self@.size().0, self@.size().1).w,
                        clamp_rect(rect, self@.size().0, self@.size().1).h,
                    ) && (list@[k].0, list@[k].1@)
                        == want[k],
                forall|k: usize, total: usize|
                    1 <= k <= total && total == self@.frames.len() ==> #[trigger] call_requires(
                        progress,
                        (k, total),
                    ),
                forall|k: usize|
                    1 <= k <= i ==> #[trigger] call_ensures(progress, (k, total), ()),
            decreases total - i,
        {
            assert(self@.frames[i as int].wf());
            let pixels = crop_with_padding(&self.frames[i].pixels, r);
            let produced = redraw(&self.frames[i], pixels, keys);
            progress(i + 1, total);
            list.push((i, produced));
            i = i + 1;
        }
        assert(list_views(list@) =~= want);
        list
    }

    /// Crop every frame to `rect`, clamped to the canvas. Document-wide by
    /// design: a GIF has one canvas, so frames of different sizes are not a
    /// thing this model can hold. Overlays keep their place on the image by
    /// moving with the origin: `origins` holds where each one's box starts
    /// after the move.
    pub fn crop(&mut self, rect: Rect, origins: &Vec<(Single, Single)>, keys: &mut FrameKeys)
        requires
            old(self)@.frames_sound(),
            old(self)@.part_drawable(rect),
            origins@.len() == old(self)@.overlays.len(),
        ensures
            ({
                let doc = old(self)@;
                let (cw, ch) = doc.size();
                let list = doc.cropped_list(rect, old(keys).next);
                if clamp_rect(rect, cw, ch) == (Rect { x: 0, y: 0, w: cw, h: ch }) {
                    final(self)@ == doc && final(keys).next == old(keys).next
                } else {
                    final(self)@ == (DocView {
                        frames: with_frames(doc.frames, list),
                        overlays: shifted_overlays(doc.overlays, origins@),
                        next_id: doc.next_id,
                    }) && final(keys).next == key_after(old(keys).next, list.len())
                }
            }),
            final(self)@.frames_sound(),
            final(self)@.frames != old(self)@.frames ==> forall|i: int|
                0 <= i < final(self)@.frames.len() ==> sized(
                    #[trigger] final(self)@.frames[i],
                    clamp_rect(rect, old(self)@.size().0, old(self)@.size().1).w,
                    clamp_rect(rect, old(self)@.size().0, old(self)@.size().1).h,
                ),
    {
        let (cw, ch) = self.size();
        let r = clamped_rect(rect, cw, ch);
        if r.x == 0 && r.y == 0 && r.w == cw && r.h == ch {
            return ;
        }
        let list = self.cropped_frames(rect, |done: usize, total: usize| {  }, keys);
        proof {
            assert(old(self).frames.len() == old(self)@.frames.len());
            lemma_all_replaced(old(self)@.frames, list_views(list@));
        }
        self.put_frames(list);
        self.shift_overlays(origins);
    }

    /// Put each frame of the list in its place. One past the end of the frame
    /// list is left out.
    pub fn put_frames(&mut self, list: Vec<(usize, Frame)>)
        requires
            old(self)@.frames_sound(),
            forall|k: int| 0 <= k < list@.len() ==> (#[trigger] list@[k]).1.wf(),
        ensures
            final(self)@ == (DocView {
                frames: with_frames(old(self)@.frames, list_views(list@)),
                ..old(self)@
            }),
            final(self)@.frames_sound(),
            final(self)@.frames.len() == old(self)@.frames.len(),
    {
        let ghost all = list_views(list@);
        let mut i: usize = 0;
        assert(all.take(0) =~= seq![]);
        while i < list.len()
            invariant
                i <= list@.len(),
                all == list_views(list@),
                self.overlays@ == old(self).overlays@,
                self.next_id == old(self).next_id,
                self@.frames == with_frames(old(self)@.frames, all.take(i as int)),
                self@.frames_sound(),
                self.frames@.len() == old(self).frames@.len(),
                forall|k: int| 0 <= k < list@.len() ==> (#[trigger] list@[k]).1.wf(),
            decreases list@.len() - i,
        {
            let ghost before = self@.frames;
            assert(all.take(i + 1).drop_last() =~= all.take(i as int));
            let at: usize = list[i].0;
            assert(list@[i as int].1.wf());
            if at < self.frames.len() {
                self.frames[at] = list[i].1.clone();
                assert(self@.frames =~= before.update(at as int, list@[i as int].1@));
            }
            i = i + 1;
        }
        assert(all.take(i as int) =~= all);
    }

    /// Move every overlay's box to where `origins` says.
    pub fn shift_overlays(&mut self, origins: &Vec<(Single, Single)>)
        requires
            origins@.len() == old(self)@.overlays.len(),
        ensures
            final(self)@ == (DocView {
                overlays: shifted_overlays(old(self)@.overlays, origins@),
                ..old(self)@
            }),
            final(self).frames@ == old(self).frames@,
    {
        let mut i: usize = 0;
        let ghost want = shifted_overlays(self@.overlays, origins@);
        while i < self.overlays.len()
            invariant
                i <= self.overlays@.len(),
                want == shifted_overlays(old(self)@.overlays, origins@),
                self.overlays@.len() == want.len(),
                origins@.len() == want.len(),
                self.frames@ == old(self).frames@,
                self.next_id == old(self).next_id,
                forall|k: int| 0 <= k < i ==> #[trigger] self.overlays@[k] == want[k],
                forall|k: int|
                    i <= k < want.len() ==> #[trigger] self.overlays@[k] == old(self).overlays@[k],
            decreases self.overlays@.len() - i,
        {
            let mut t = self.overlays[i].transform;
            t.x = origins[i].0;
            t.y = origins[i].1;
            self.overlays[i].transform = t;
            i = i + 1;
        }
        assert(self.overlays@ =~= want);
    }

    /// Give every overlay the box and, if it is text, the size that `boxes`
    /// says.
    pub fn scale_overlays(&mut self, boxes: &Vec<OverlayBox>)
        requires
            boxes@.len() == old(self)@.overlays.len(),
        ensures
            final(self)@ == (DocView {
                overlays: scaled_overlays(old(self)@.overlays, boxes@),
                ..old(self)@
            }),
            final(self).frames@ == old(self).frames@,
    {
        let mut i: usize = 0;
        let ghost want = scaled_overlays(self@.overlays, boxes@);
        while i < self.overlays.len()
            invariant
                i <= self.overlays@.len(),
                want == scaled_overlays(old(self)@.overlays, boxes@),
                self.overlays@.len() == want.len(),
                boxes@.len() == want.len(),
                self.frames@ == old(self).frames@,
                self.next_id == old(self).next_id,
                forall|k: int| 0 <= k < i ==> #[trigger] self.overlays@[k] == want[k],
                forall|k: int|
                    i <= k < want.len() ==> #[trigger] self.overlays@[k] == old(self).overlays@[k],
            decreases self.overlays@.len() - i,
        {
            let mut o = self.overlays[i].clone();
            let b = boxes[i];
            o.transform = Transform { x: b.x, y: b.y, w: b.w, h: b.h, angle: o.transform.angle };
            o.kind = match o.kind {
                OverlayKind::Text(t) => OverlayKind::Text(
                    TextOverlay {
                        text: t.text,
                        font: t.font,
                        size_px: b.size_px,
                        color: t.color,
                        outline: t.outline,
                        align: t.align,
                        antialias: t.antialias,
                    },
                ),
                kind => kind,
            };
            assert(o == scaled_overlay(old(self).overlays@[i as int], b));
            self.overlays[i] = o;
            i = i + 1;
        }
        assert(self.overlays@ =~= want);
    }

    /// The frames a whole-document resize would produce, as `(index, frame)`
    /// pairs so a caller can apply them by position. This is the slow half of
    /// `resize`, the half a background worker runs; the mutator stays on the
    /// main thread because swapping indexed frames is cheap. `progress` is
    /// told `(done, total)` once per finished frame.
    pub fn resized_frames<P: FnMut(usize, usize)>(
        &self,
        w: u32,
        h: u32,
        mut progress: P,
        keys: &mut FrameKeys,
    ) -> (r: Vec<(usize, Frame)>)
        requires
            self@.frames_sound(),
            self@.frames_resizable(at_least_one(w), at_least_one(h)),
            forall|k: usize, total: usize|
                1 <= k <= total && total == self@.frames.len() ==> #[trigger] call_requires(
                    progress,
                    (k, total),
                ),
        ensures
            list_views(r@) == self@.resized_list(at_least_one(w), at_least_one(h), old(keys).next),
            final(keys).next == key_after(old(keys).next, r@.len()),
            forall|k: int| 0 <= k < r@.len() ==> (#[trigger] r@[k]).1.wf() && sized(r@[k].1@, at_least_one(w), at_least_one(h)),
            forall|k: usize|
                1 <= k <= r@.len() ==> #[trigger] call_ensures(progress, (k, r@.len() as usize), ()),
    {
        let w: u32 = if w < 1 {
            1
        } else {
            w
        };
        let h: u32 = if h < 1 {
            1
        } else {
            h
        };
        let ghost told = progress;
        let mut list: Vec<(usize, Frame)> = Vec::new();
        let total: usize = self.frames.len();
        let mut i: usize = 0;
        let ghost want = self@.resized_list(w, h, old(keys).next);
        while i < total
            invariant
                i <= total,
                total == self.frames@.len(),
                self@.frames_sound(),
                self@.frames_resizable(w, h),
                want == self@.resized_list(w, h, old(keys).next),
                list@.len() == i,
                progress == told,
                keys.next == key_after(old(keys).next, i as nat),
                forall|k: int|
                    0 <= k < i ==> (#[trigger] list@[k]).1.wf() && sized(
                        list@[k].1@,
                        w,
                        h,
                    ) && (list@[k].0, list@[k].1@)
                        == want[k],
                forall|k: usize, total: usize|
                    1 <= k <= total && total == self@.frames.len() ==> #[trigger] call_requires(
                        progress,
                        (k, total),
                    ),
                forall|k: usize|
                    1 <= k <= i ==> #[trigger] call_ensures(progress, (k, total), ()),
            decreases total - i,
        {
            assert(self@.frames[i as int].wf());
            let pixels = resize(&self.frames[i].pixels, w, h, Filter::Triangle);
            let produced = redraw(&self.frames[i], pixels, keys);
            progress(i + 1, total);
            list.push((i, produced));
            i = i + 1;
        }
        assert(list_views(list@) =~= want);
        list
    }

    /// Scale the whole document. Overlays scale with it, so a caption keeps its
    /// proportions rather than sliding off a smaller canvas: `boxes` holds each
    /// one's box and text size at the new scale.
    pub fn resize(&mut self, w: u32, h: u32, boxes: &Vec<OverlayBox>, keys: &mut FrameKeys)
        requires
            old(self)@.frames_sound(),
            old(self)@.frames_resizable(at_least_one(w), at_least_one(h)),
            boxes@.len() == old(self)@.overlays.len(),
        ensures
            ({
                let doc = old(self)@;
                let (cw, ch) = doc.size();
                let (w, h) = (at_least_one(w), at_least_one(h));
                let list = doc.resized_list(w, h, old(keys).next);
                if cw == 0 || ch == 0 || (w, h) == (cw, ch) {
                    final(self)@ == doc && final(keys).next == old(keys).next
                } else {
                    final(self)@ == (DocView {
                        frames: with_frames(doc.frames, list),
                        overlays: scaled_overlays(doc.overlays, boxes@),
                        next_id: doc.next_id,
                    }) && final(keys).next == key_after(old(keys).next, list.len())
                }
            }),
            final(self)@.frames_sound(),
            final(self)@ != old(self)@ ==> forall|i: int|
                0 <= i < final(self)@.frames.len() ==> sized(
                    #[trigger] final(self)@.frames[i],
                    at_least_one(w),
                    at_least_one(h),
                ),
    {
        let (cw, ch) = self.size();
        let w: u32 = if w < 1 {
            1
        } else {
            w
        };
        let h: u32 = if h < 1 {
            1
        } else {
            h
        };
        if cw == 0 || ch == 0 || (w == cw && h == ch) {
            return ;
        }
        let list = self.resized_frames(w, h, |done: usize, total: usize| {  }, keys);
        proof {
            assert(old(self).frames.len() == old(self)@.frames.len());
            lemma_all_replaced(old(self)@.frames, list_views(list@));
        }
        self.put_frames(list);
        self.scale_overlays(boxes);
    }

    /// The frames a zoom would produce, as `(index, frame)` pairs, the way
    /// `resized_frames` does for a resize. Indices past the end of the frame
    /// list are skipped, and a canvas of no area makes an empty answer.
    /// `progress` is told `(done, total)` over the frames that will actually
    /// be produced.
    pub fn zoomed_frames<P: FnMut(usize, usize)>(
        &self,
        indices: &Vec<usize>,
        rect: Rect,
        mut progress: P,
        keys: &mut FrameKeys,
    ) -> (r: Vec<(usize, Frame)>)
        requires
            self@.frames_sound(),
            self@.canvas_resizable(),
            forall|k: usize, total: usize|
                1 <= k <= total <= indices@.len() ==> #[trigger] call_requires(
                    progress,
                    (k, total),
                ),
        ensures
            list_views(r@) == self@.zoomed_list(indices@, rect, old(keys).next),
            final(keys).next == key_after(old(keys).next, r@.len()),
            forall|k: int| 0 <= k < r@.len() ==> (#[trigger] r@[k]).1.wf() && sized(r@[k].1@, self@.size().0, self@.size().1),
            forall|k: usize|
                1 <= k <= r@.len() ==> #[trigger] call_ensures(progress, (k, r@.len() as usize), ()),
    {
        let ghost told = progress;
        let mut list: Vec<(usize, Frame)> = Vec::new();
        let (r, cw, ch) = match self.canvas_rect(rect) {
            Some(found) => found,
            None => {
                assert(list_views(list@) =~= seq![]);
                return list;
            },
        };
        let wanted = indices_below(indices, self.frames.len());
        let total: usize = wanted.len();
        let mut i: usize = 0;
        let ghost want = self@.zoomed_list(indices@, rect, old(keys).next);
        while i < total
            invariant
                i <= total,
                total == wanted@.len(),
                total <= indices@.len(),
                wanted@ == below(indices@, self@.frames.len()),
                forall|k: int| 0 <= k < wanted@.len() ==> #[trigger] wanted@[k] < self.frames@.len(),
                self@.frames_sound(),
                self@.canvas_resizable(),
                want == self@.zoomed_list(indices@, rect, old(keys).next),
                self@.size() == (cw, ch),
                cw > 0,
                ch > 0,
                r == clamp_rect(rect, cw, ch),
                drawable(cw as int, ch as int),
                r.x + r.w <= cw,
                r.y + r.h <= ch,
                r.w * r.h * 4 <= usize::MAX,
                list@.len() == i,
                progress == told,
                keys.next == key_after(old(keys).next, i as nat),
                forall|k: int|
                    0 <= k < i ==> (#[trigger] list@[k]).1.wf() && sized(
                        list@[k].1@,
                        self@.size().0,
                        self@.size().1,
                    ) && (list@[k].0, list@[k].1@)
                        == want[k],
                forall|k: usize, total: usize|
                    1 <= k <= total <= indices@.len() ==> #[trigger] call_requires(
                        progress,
                        (k, total),
                    ),
                forall|k: usize|
                    1 <= k <= i ==> #[trigger] call_ensures(progress, (k, total), ()),
            decreases total - i,
        {
            let at: usize = wanted[i];
            assert(self@.frames[at as int].wf());
            proof {
                lemma_part_fits(cw as int, ch as int, r.w as int, r.h as int);
            }
            let cropped = crop_with_padding(&self.frames[at].pixels, r);
            let pixels = resize(&cropped, cw, ch, Filter::Triangle);
            let produced = redraw(&self.frames[at], pixels, keys);
            progress(i + 1, total);
            list.push((at, produced));
            i = i + 1;
        }
        assert(list_views(list@) =~= want);
        list
    }

    /// Blow `rect` up to fill the canvas, on the given frames only. The
    /// canvas size never changes, which is what makes this safe per frame in a
    /// way `crop` is not.
    pub fn zoom_frames(&mut self, frames: &Vec<usize>, rect: Rect, keys: &mut FrameKeys)
        requires
            old(self)@.frames_sound(),
            old(self)@.canvas_resizable(),
        ensures
            ({
                let list = old(self)@.zoomed_list(frames@, rect, old(keys).next);
                &&& final(self)@ == (DocView {
                    frames: with_frames(old(self)@.frames, list),
                    ..old(self)@
                })
                &&& final(keys).next == key_after(old(keys).next, list.len())
            }),
            final(self)@.frames_sound(),
            final(self)@.size() == old(self)@.size(),
            forall|i: int|
                0 <= i < old(self)@.frames.len() && !picks(frames@, i)
                    ==> #[trigger] final(self)@.frames[i] == old(self)@.frames[i],
    {
        let list = self.zoomed_frames(frames, rect, |done: usize, total: usize| {  }, keys);
        proof {
            lemma_below(frames@, old(self)@.frames.len());
            lemma_untouched(
                old(self)@.frames,
                list_views(list@),
                frames@,
                old(self)@.size().0,
                old(self)@.size().1,
            );
        }
        self.put_frames(list);
    }

    /// The frames a shrink would produce, as `(index, frame)` pairs, the way
    /// `zoomed_frames` does for a zoom.
    pub fn shrunk_frame_list<P: FnMut(usize, usize)>(
        &self,
        indices: &Vec<usize>,
        rect: Rect,
        mut progress: P,
        keys: &mut FrameKeys,
    ) -> (r: Vec<(usize, Frame)>)
        requires
            self@.frames_sound(),
            forall|k: usize, total: usize|
                1 <= k <= total <= indices@.len() ==> #[trigger] call_requires(
                    progress,
                    (k, total),
                ),
        ensures
            list_views(r@) == self@.shrunk_list(indices@, rect, old(keys).next),
            final(keys).next == key_after(old(keys).next, r@.len()),
            forall|k: int| 0 <= k < r@.len() ==> (#[trigger] r@[k]).1.wf() && sized(r@[k].1@, self@.size().0, self@.size().1),
            forall|k: usize|
                1 <= k <= r@.len() ==> #[trigger] call_ensures(progress, (k, r@.len() as usize), ()),
    {
        let ghost told = progress;
        let mut list: Vec<(usize, Frame)> = Vec::new();
        let (r, cw, ch) = match self.canvas_rect(rect) {
            Some(found) => found,
            None => {
                assert(list_views(list@) =~= seq![]);
                return list;
            },
        };
        let wanted = indices_below(indices, self.frames.len());
        let total: usize = wanted.len();
        let mut i: usize = 0;
        let ghost want = self@.shrunk_list(indices@, rect, old(keys).next);
        while i < total
            invariant
                i <= total,
                total == wanted@.len(),
                total <= indices@.len(),
                wanted@ == below(indices@, self@.frames.len()),
                forall|k: int| 0 <= k < wanted@.len() ==> #[trigger] wanted@[k] < self.frames@.len(),
                self@.frames_sound(),
                want == self@.shrunk_list(indices@, rect, old(keys).next),
                self@.size() == (cw, ch),
                cw > 0,
                ch > 0,
                r == clamp_rect(rect, cw, ch),
                drawable(cw as int, ch as int),
                r.x + r.w <= cw,
                r.y + r.h <= ch,
                r.w * r.h * 4 <= usize::MAX,
                cw * ch * 4 <= usize::MAX,
                list@.len() == i,
                progress == told,
                keys.next == key_after(old(keys).next, i as nat),
                forall|k: int|
                    0 <= k < i ==> (#[trigger] list@[k]).1.wf() && sized(
                        list@[k].1@,
                        self@.size().0,
                        self@.size().1,
                    ) && (list@[k].0, list@[k].1@)
                        == want[k],
                forall|k: usize, total: usize|
                    1 <= k <= total <= indices@.len() ==> #[trigger] call_requires(
                        progress,
                        (k, total),
                    ),
                forall|k: usize|
                    1 <= k <= i ==> #[trigger] call_ensures(progress, (k, total), ()),
            decreases total - i,
        {
            let at: usize = wanted[i];
            assert(self@.frames[at as int].wf());
            let kept = crop_with_padding(&self.frames[at].pixels, r);
            let canvas = Raster::blank(cw, ch).overlaid(&kept, r.x as i64, r.y as i64);
            let produced = redraw(&self.frames[at], canvas, keys);
            progress(i + 1, total);
            list.push((at, produced));
            i = i + 1;
        }
        assert(list_views(list@) =~= want);
        list
    }

    /// Keep `rect` and make everything outside it transparent, on the given
    /// frames only. Unlike `zoom_frames` the kept region is not scaled
    /// back up to fill the canvas — it stays at its own size and sits where it
    /// was cropped from — so a frame can *look* smaller than the others
    /// without the model needing a per-frame canvas size.
    pub fn shrink_frames(&mut self, frames: &Vec<usize>, rect: Rect, keys: &mut FrameKeys)
        requires
            old(self)@.frames_sound(),
        ensures
            ({
                let list = old(self)@.shrunk_list(frames@, rect, old(keys).next);
                &&& final(self)@ == (DocView {
                    frames: with_frames(old(self)@.frames, list),
                    ..old(self)@
                })
                &&& final(keys).next == key_after(old(keys).next, list.len())
            }),
            final(self)@.frames_sound(),
            final(self)@.size() == old(self)@.size(),
            forall|i: int|
                0 <= i < old(self)@.frames.len() && !picks(frames@, i)
                    ==> #[trigger] final(self)@.frames[i] == old(self)@.frames[i],
    {
        let list = self.shrunk_frame_list(frames, rect, |done: usize, total: usize| {  }, keys);
        proof {
            lemma_below(frames@, old(self)@.frames.len());
            lemma_untouched(
                old(self)@.frames,
                list_views(list@),
                frames@,
                old(self)@.size().0,
                old(self)@.size().1,
            );
        }
        self.put_frames(list);
    }

    /// Replace one frame's pixels, as the external editor handoff does. The
    /// frame is detached from then on: overlays covering it skip it.
    pub fn replace_frame_pixels(&mut self, index: usize, pixels: Raster, keys: &mut FrameKeys)
        requires
            pixels.wf(),
            pixels@.within_limit(),
        ensures
            if index < old(self)@.frames.len() {
                &&& final(self)@ == (DocView {
                    frames: old(self)@.frames.update(
                        index as int,
                        new_frame(
                            pixels@,
                            old(self)@.frames[index as int].delay_cs,
                            old(keys).next,
                        ).with_detached(true),
                    ),
                    ..old(self)@
                })
                &&& final(keys).next == next_key(old(keys).next)
            } else {
                final(self)@ == old(self)@ && final(keys).next == old(keys).next
            },
            old(self)@.frames_sound() ==> final(self)@.frames_sound(),
    {
        if index < self.frames.len() {
            // Rebuild rather than assign: the thumbnail and the opacity flag
            // are cached off these pixels.
            let mut frame = Frame::new(pixels, self.frames[index].delay_cs, keys);
            frame.detached = true;
            self.frames[index] = frame;
            assert(self@.frames =~= old(self)@.frames.update(index as int, frame@));
        }
    }
}

/// At least one.
pub open spec fn at_least_one(side: u32) -> u32 {
    if side < 1 {
        1
    } else {
        side
    }
}

/// An overlay's box and, if it is text, its size.
#[derive(Clone, Copy, Debug)]
pub struct OverlayBox {
    pub x: Single,
    pub y: Single,
    pub w: Single,
    pub h: Single,
    pub size_px: Single,
}

/// The overlay in another box. Text takes the size of the box, everything
/// else stays.
pub open spec fn scaled_overlay(o: Overlay, b: OverlayBox) -> Overlay {
    Overlay {
        transform: Transform { x: b.x, y: b.y, w: b.w, h: b.h, angle: o.transform.angle },
        kind: match o.kind {
            OverlayKind::Text(t) => OverlayKind::Text(TextOverlay { size_px: b.size_px, ..t }),
            kind => kind,
        },
        ..o
    }
}

pub open spec fn scaled_overlays(overlays: Seq<Overlay>, boxes: Seq<OverlayBox>) -> Seq<Overlay> {
    Seq::new(overlays.len(), |i: int| scaled_overlay(overlays[i], boxes[i]))
}

/// The overlays with their boxes starting elsewhere.
pub open spec fn shifted_overlays(
    overlays: Seq<Overlay>,
    origins: Seq<(Single, Single)>,
) -> Seq<Overlay> {
    Seq::new(
        overlays.len(),
        |i: int|
            Overlay {
                transform: Transform { x: origins[i].0, y: origins[i].1, ..overlays[i].transform },
                ..overlays[i]
            },
    )
}

/// Crop against the document canvas even if a frame imported from an external
/// editor is smaller. Pixels outside that frame are transparent; every result
/// still has the document crop's dimensions.
fn crop_with_padding(image: &Raster, r: Rect) -> (out: Raster)
    requires
        image.wf(),
        r.w * r.h * 4 <= usize::MAX,
    ensures
        out.wf(),
        out@ == cropped_picture(image@, r),
{
    image.window(r.x, r.y, r.w, r.h)
}

} // verus!
