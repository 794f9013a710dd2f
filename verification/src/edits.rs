//! The window's edits: each is one step of history, and what is on screen and
//! picked follows it.

use std::ops::Range;

use vstd::prelude::*;

use crate::app::{
    duplicated, overlay_edited, toast_for, toast_if_document_wide, App, AppView, Busy, Effect,
    EffectView,
};
use crate::arrange::reversed;
use crate::canvas::Rect;
use crate::document::{find_id, lemma_find_id, DocView};
use crate::drag::places;
use crate::history::Change;
use crate::model::{Frame, FrameView, Overlay, OverlayId, OverlayKind, TextOverlay, Transform};
use crate::msg::{FrameOp, OverlayProp, ScopeChoice};
use crate::scope::{lemma_ascending, picks};
use crate::selection::{
    count_below, crop_changes_canvas, frames_from, lemma_count_below, lemma_rising_from,
    overlay_edit_span, rising, run_of,
};
use crate::soundness::{law_insert_keeps_sound, whole};
use crate::work::{BusyKind, FrameWork, WorkView};

verus! {

/// Where the frame at `p`, of `n`, stands after the picked frames moved to a
/// run at `to`, which leaves it alone unless the run lands among the `n`.
pub open spec fn carried_to(picked: Seq<usize>, to: int, n: int, p: int) -> int {
    let below = count_below(picked, p);
    if picks(picked, p) {
        to + below
    } else if !places(picked, n as nat) || to + picked.len() > n {
        p
    } else if p - below < to {
        p - below
    } else {
        p - below + picked.len()
    }
}

fn carried(picked: &Vec<usize>, to: usize, n: usize, p: usize) -> (r: usize)
    requires
        rising(picked@),
        to + picked@.len() <= usize::MAX,
        p + n <= usize::MAX,
    ensures
        r == carried_to(picked@, to as int, n as int, p as int),
{
    if picked.len() == 0 {
        return p;
    }
    proof {
        lemma_count_below(picked@, p as int);
    }
    let mut at: usize = 0;
    while at < picked.len() && picked[at] < p
        invariant
            at <= picked@.len(),
            forall|j: int| 0 <= j < at ==> #[trigger] picked@[j] < p,
        decreases picked@.len() - at,
    {
        at = at + 1;
    }
    proof {
        let below = count_below(picked@, p as int) as int;
        if at < below {
            assert(picked@[at as int] < p);
        }
        if below < at {
            assert(!(picked@[below] < p));
        }
        if picks(picked@, p as int) {
            let j = choose|j: int| 0 <= j < picked@.len() && #[trigger] picked@[j] == p;
            if j > at {
                assert(picked@[at as int] < picked@[j]);
            }
        }
    }
    if at < picked.len() && picked[at] == p {
        assert(picks(picked@, p as int));
        return to + at;
    }
    let inside = picked[picked.len() - 1] < n && to + picked.len() <= n;
    proof {
        if inside {
            assert forall|a: int| 0 <= a < picked@.len() implies #[trigger] picked@[a] < n by {
                if a < picked@.len() - 1 {
                    assert(picked@[a] < picked@[picked@.len() - 1]);
                }
            }
        }
        assert(inside == (places(picked@, n as nat) && to + picked@.len() <= n));
    }
    if !inside {
        return p;
    }
    let stays: usize = p - at;
    if stays < to {
        stays
    } else {
        stays + picked.len()
    }
}

impl AppView {
    /// Whether the picked frames already stand as a run at `to`.
    pub open spec fn stands_at(picked: Seq<usize>, to: int) -> bool {
        picked == run_of(to, picked.len() as int)
    }

    /// After the picked frames moved to a run at `to`: the selection follows
    /// them and the playhead rides whatever frame it was on.
    pub open spec fn picked_moved(self, picked: Seq<usize>, to: int) -> AppView {
        let moved = self.edited(
            "Frames moved"@,
            picked.len() as int,
            self.doc().set_moved(self.doc().picked_frames(picked), to),
        );
        let ridden = AppView {
            playhead: carried_to(picked, to, self.count() as int, self.playhead as int) as usize,
            ..moved
        };
        let followed = if picked.len() > 1 {
            AppView {
                selection: run_of(to, picked.len() as int),
                anchor: Some(to as usize),
                scope: ScopeChoice::Range,
                ..ridden
            }
        } else {
            ridden
        };
        followed.settled()
    }

    /// After a frame operation on `frames`.
    pub open spec fn frames_done(self, op: FrameOp, frames: Seq<usize>) -> (AppView, EffectView) {
        if self.count() == 0 || frames.len() == 0 {
            (self, EffectView::Nothing)
        } else {
            let label = match op {
                FrameOp::Delete => "Frames deleted"@,
                FrameOp::Cut => "Frames cut"@,
                FrameOp::Duplicate => "Frames duplicated"@,
                FrameOp::Reverse => "Frames reversed"@,
            };
            let doc = self.doc();
            let after = match op {
                FrameOp::Delete => doc.without(|i: int| picks(frames, i)),
                FrameOp::Cut => doc.without(|i: int| picks(frames, i)),
                FrameOp::Duplicate => duplicated(doc, frames),
                FrameOp::Reverse => DocView {
                    frames: reversed(
                        doc.frames,
                        Range { start: frames[0], end: (frames.last() + 1) as usize },
                    ),
                    ..doc
                },
            };
            let kept = if op == FrameOp::Cut {
                self.with_copied(frames)
            } else {
                self
            };
            let done = AppView {
                playhead: if op == FrameOp::Delete || op == FrameOp::Cut {
                    frames[0]
                } else {
                    self.playhead
                },
                selection: seq![],
                scope: if self.scope == ScopeChoice::Range {
                    ScopeChoice::ThisFrame
                } else {
                    self.scope
                },
                ..kept.edited(label, frames.len() as int, after)
            };
            (done.settled(), toast_for(label, frames.len() as int, self.count() as int))
        }
    }

    /// After pasting the clipboard in after the frame on screen. The playhead
    /// rides the *last* pasted frame, so pasting twice stacks the runs rather
    /// than splitting the first one down the middle. The scope is what was
    /// pasted, so a second edit acts on what just arrived.
    pub open spec fn pasted(self) -> AppView {
        let n = self.clipboard.len() as int;
        let at = if self.count() == 0 {
            0
        } else {
            self.playhead + 1
        };
        let done = self.edited("Frames pasted"@, n, self.doc().with_run(at, self.clipboard));
        let shown = AppView { playhead: (at + n - 1) as usize, ..done };
        let picked = if n > 1 {
            AppView {
                selection: run_of(at, n),
                anchor: Some(at as usize),
                scope: ScopeChoice::Range,
                ..shown
            }
        } else {
            AppView { selection: seq![], scope: ScopeChoice::ThisFrame, ..shown }
        };
        picked.settled()
    }

    /// How many frames overlay `id` lies on.
    pub open spec fn width_of(self, id: OverlayId) -> int {
        let r = self.range_of(id);
        if r.start < r.end {
            r.end - r.start
        } else {
            0
        }
    }

    /// After overlay `id` went a step through the z-order, past the layer
    /// shown next to it.
    pub open spec fn restacked(self, id: OverlayId, up: bool) -> AppView {
        match self.neighbour(id, up) {
            None => self,
            Some(other) => {
                let done = self.edited(
                    "Overlay reordered"@,
                    self.width_of(id),
                    self.doc().restacked(id, other, up),
                );
                AppView { selected_overlay: Some(id), ..done }.settled()
            },
        }
    }

    /// After overlay `id` was deleted.
    pub open spec fn overlay_deleted(self, id: OverlayId) -> (AppView, EffectView) {
        let i = find_id(self.doc().overlays, id, 0);
        if i < self.doc().overlays.len() {
            (
                self.edited(
                    "Overlay deleted"@,
                    self.width_of(id),
                    DocView { overlays: self.doc().overlays.remove(i), ..self.doc() },
                ).settled(),
                toast_for("Overlay deleted"@, self.width_of(id), self.count() as int),
            )
        } else {
            (self, EffectView::Nothing)
        }
    }

    /// After one frame was put in at `at`.
    pub open spec fn frame_spliced(self, at: int, frame: FrameView) -> (AppView, EffectView) {
        let done = self.edited("Frame added"@, 1, self.doc().with_run(at, seq![frame]));
        (
            AppView { playhead: at as usize, ..done }.settled(),
            toast_for("Frame added"@, 1, self.count() as int),
        )
    }

    /// After an edit of the overlay `id` on the frames the scope gives it.
    pub open spec fn overlay_changed(
        self,
        label: Seq<char>,
        id: OverlayId,
        f: spec_fn(Overlay) -> Overlay,
    ) -> AppView {
        let span = self.span_for(id);
        let (doc, landed) = overlay_edited(self.doc(), id, span, f);
        AppView {
            selected_overlay: Some(landed),
            ..self.edited(label, span.end - span.start, doc)
        }.settled()
    }

    /// Whether the scope gives an edit of the overlay `id` any frames.
    pub open spec fn reaches(self, id: OverlayId) -> bool {
        self.span_for(id).start < self.span_for(id).end
    }

    /// After the bar went up for a job of so many frames.
    pub open spec fn working(self, kind: BusyKind, total: nat) -> AppView {
        AppView { busy: Some(Busy { kind, done: 0, total: Some(total as usize) }), ..self }
    }

    /// After the start of a crop, if it leaves anything out.
    pub open spec fn crop_started(self, rect: Rect) -> (AppView, EffectView) {
        let (cw, ch) = self.doc().size();
        if cw > 0 && ch > 0 && !(rect.x == 0 && rect.y == 0 && rect.w >= cw && rect.h >= ch) {
            (
                AppView { crop_tool: false, ..self }.working(BusyKind::Crop, self.count()),
                EffectView::Work(WorkView::Crop { rect }),
            )
        } else {
            (self, EffectView::Nothing)
        }
    }

    /// After the drawn crop box was taken to fill the canvas on `frames`.
    pub open spec fn zoom_started(self, frames: Seq<usize>, rect: Option<Rect>) -> (
        AppView,
        EffectView,
    ) {
        match (self.crop_rect, rect) {
            (Some(_), Some(rect)) if frames.len() > 0 => (
                AppView { crop_tool: false, crop_rect: None, ..self }.working(
                    BusyKind::Zoom,
                    frames.len(),
                ),
                EffectView::Work(WorkView::Zoom { frames, rect }),
            ),
            _ => (self, EffectView::Nothing),
        }
    }

    /// After the drawn crop box was taken to blank what lies outside it.
    pub open spec fn shrink_started(self, rect: Option<Rect>) -> (AppView, EffectView) {
        let taken = AppView { crop_rect: None, ..self };
        let frames = self.scope_frames();
        match (self.crop_rect, rect) {
            (Some(_), Some(rect)) => (
                AppView { crop_tool: false, ..taken }.working(BusyKind::Shrink, frames.len()),
                EffectView::Work(WorkView::Shrink { frames, rect }),
            ),
            _ => (taken, EffectView::Nothing),
        }
    }
}

/// With room for every frame, there is room for some of them.
proof fn lemma_room_for(picked: nat, count: nat, overlays: nat)
    requires
        picked <= count,
    ensures
        (2 * picked + 1) * overlays <= (2 * count + 1) * overlays,
        overlays <= (2 * count + 1) * overlays,
{
    assert((2 * picked + 1) * overlays <= (2 * count + 1) * overlays) by (nonlinear_arith)
        requires
            picked <= count,
    ;
    assert(overlays <= (2 * count + 1) * overlays) by (nonlinear_arith);
}

impl App {
    /// Move `picked` so the run lands at `to`, an index into the list with
    /// the picked frames already removed — what `move_target_for_set`
    /// produces from a divider gap. One history step; the selection follows
    /// the frames it named (they come out contiguous at their new home) and
    /// the playhead rides whatever frame it was on. `None` when nothing
    /// would move, so the caller can skip the toast.
    pub fn move_picked(&mut self, picked: &Vec<usize>, to: usize) -> (r: Option<Change>)
        requires
            old(self).wf(),
            old(self)@.roomy(),
            rising(picked@),
            to + picked@.len() <= usize::MAX,
        ensures
            if picked@.len() == 0 || AppView::stands_at(picked@, to as int) {
                r is None && final(self)@ == old(self)@
            } else {
                &&& r matches Some(change) && change@.label == "Frames moved"@
                    && change@.frames_touched == picked@.len()
                &&& final(self)@ == old(self)@.picked_moved(picked@, to as int)
            },
    {
        let mut stands = true;
        let mut k: usize = 0;
        while k < picked.len()
            invariant
                k <= picked@.len(),
                to + picked@.len() <= usize::MAX,
                stands == (forall|j: int| 0 <= j < k ==> #[trigger] picked@[j] == to + j),
            decreases picked@.len() - k,
        {
            if picked[k] != to + k {
                stands = false;
                assert(picked@[k as int] != to + k);
            }
            k = k + 1;
        }
        proof {
            if stands {
                assert(picked@ =~= run_of(to as int, picked@.len() as int));
            } else if AppView::stands_at(picked@, to as int) {
                assert forall|j: int| 0 <= j < picked@.len() implies #[trigger] picked@[j] == to
                    + j by {
                    assert(run_of(to as int, picked@.len() as int)[j] == to + j);
                }
            }
        }
        if picked.len() == 0 || stands {
            return None;
        }
        proof {
            lemma_ascending(self@.count(), |i: int| picks(picked@, i));
            lemma_room_for(
                self@.doc().picked_frames(picked@).len(),
                self@.count(),
                self@.doc().overlays.len(),
            );
        }
        let total = self.frame_count();
        let change = self.editor.begin("Frames moved", picked.len());
        self.editor.doc.move_frames_to(picked, to);
        self.playhead = carried(picked, to, total, self.playhead);
        if picked.len() > 1 {
            self.selection = frames_from(to, picked.len());
            self.anchor = Some(to);
            self.scope = ScopeChoice::Range;
        }
        self.after_edit();
        Some(change)
    }

    /// The frame operations, shared by the toolbar menu (which acts on the
    /// scope) and a frame's own context menu (which acts on that frame).
    pub fn run_frame_op(&mut self, op: FrameOp, frames: &Vec<usize>) -> (r: Effect)
        requires
            old(self).wf(),
            old(self)@.roomy(),
            rising(frames@),
            forall|k: int| 0 <= k < frames@.len() ==> #[trigger] frames@[k] < old(self)@.count(),
        ensures
            (final(self)@, r@) == old(self)@.frames_done(op, frames@),
    {
        if self.frame_count() == 0 || frames.len() == 0 {
            return Effect::Nothing;
        }
        let total = self.frame_count();
        let first: usize = frames[0];
        let last: usize = frames[frames.len() - 1];
        assert(first <= last) by {
            if frames@.len() > 1 {
                assert(frames@[0] < frames@[frames@.len() - 1]);
            }
        }
        assert(last < self@.count());
        proof {
            lemma_rising_from(frames@, 0, frames@.len() - 1);
        }
        if op == FrameOp::Cut {
            self.copy_frames(frames);
        }
        let change = match op {
            FrameOp::Delete => {
                let change = self.editor.begin("Frames deleted", frames.len());
                self.editor.doc.delete_frames_at(frames);
                self.playhead = first;
                change
            },
            FrameOp::Cut => {
                let change = self.editor.begin("Frames cut", frames.len());
                self.editor.doc.delete_frames_at(frames);
                self.playhead = first;
                change
            },
            FrameOp::Duplicate => {
                let change = self.editor.begin("Frames duplicated", frames.len());
                self.duplicate_all(frames);
                change
            },
            FrameOp::Reverse => {
                // Reversing a set of frames that are not a run has no meaning
                // beyond reversing what they span.
                let change = self.editor.begin("Frames reversed", frames.len());
                self.editor.doc.reverse_frames(first..last + 1);
                change
            },
        };
        self.selection = Vec::new();
        if self.scope == ScopeChoice::Range {
            self.scope = ScopeChoice::ThisFrame;
        }
        self.after_edit();
        toast_if_document_wide(change, total)
    }

    /// Double each of the frames, back to front, so each insert leaves the
    /// rest of the selection's indices alone.
    fn duplicate_all(&mut self, frames: &Vec<usize>)
        requires
            old(self).editor.doc@.sound(),
            old(self).editor.doc@.frames.len() + frames@.len() <= usize::MAX,
        ensures
            final(self)@ == (AppView {
                editor: crate::history::EditorView {
                    doc: duplicated(old(self).editor.doc@, frames@),
                    ..old(self)@.editor
                },
                ..old(self)@
            }),
    {
        let ghost doc = self.editor.doc@;
        let mut k: usize = frames.len();
        assert(frames@.take(k as int) =~= frames@);
        while k > 0
            invariant
                k <= frames@.len(),
                self@ == (AppView {
                    editor: crate::history::EditorView {
                        doc: self.editor.doc@,
                        ..old(self)@.editor
                    },
                    ..old(self)@
                }),
                self.editor.doc@.sound(),
                self.editor.doc@.frames.len() + k <= usize::MAX,
                duplicated(doc, frames@) == duplicated(self.editor.doc@, frames@.take(k as int)),
            decreases k,
        {
            k = k - 1;
            let ghost now = self.editor.doc@;
            assert(frames@.take(k + 1).drop_last() =~= frames@.take(k as int));
            assert(frames@.take(k + 1).last() == frames@[k as int]);
            proof {
                if frames@[k as int] < now.frames.len() {
                    assert(whole(seq![now.frames[frames@[k as int] as int]]));
                    law_insert_keeps_sound(
                        now,
                        frames@[k as int] + 1,
                        seq![now.frames[frames@[k as int] as int]],
                    );
                } else {
                    assert(whole(Seq::<FrameView>::empty()));
                    law_insert_keeps_sound(now, 0, seq![]);
                    assert(now.frames.len() < usize::MAX);
                }
            }
            assert(now.ranges_fit(1)) by {
                assert forall|i: int| 0 <= i < now.overlays.len() implies (
                #[trigger] now.overlays[i]).range.start + 1 <= usize::MAX
                    && now.overlays[i].range.end + 1 <= usize::MAX by {
                    assert(now.overlays[i].range.end <= now.frames.len());
                }
            }
            self.editor.doc.duplicate_frame(frames[k]);
        }
        assert(frames@.take(0) =~= seq![]);
    }

    /// Paste the clipboard in directly after the frame on screen, the way a
    /// duplicate lands beside its source, and leave the pasted run selected
    /// so a second edit acts on what just arrived. `None` when there is
    /// nothing on the clipboard, so the caller can skip the toast.
    pub fn paste_frames(&mut self) -> (r: Option<Change>)
        requires
            old(self).wf(),
            old(self)@.roomy(),
        ensures
            if old(self)@.clipboard.len() == 0 {
                r is None && final(self)@ == old(self)@
            } else {
                &&& r matches Some(change) && change@.label == "Frames pasted"@
                    && change@.frames_touched == old(self)@.clipboard.len()
                &&& final(self)@ == old(self)@.pasted()
            },
    {
        if self.clipboard.len() == 0 {
            return None;
        }
        let count = self.clipboard.len();
        let mut frames: Vec<Frame> = Vec::new();
        let mut k: usize = 0;
        while k < self.clipboard.len()
            invariant
                k <= self.clipboard@.len(),
                frames@ == self.clipboard@.take(k as int),
            decreases self.clipboard@.len() - k,
        {
            frames.push(self.clipboard[k].clone());
            k = k + 1;
            assert(frames@ =~= self.clipboard@.take(k as int));
        }
        assert(frames@ =~= self.clipboard@);
        let at: usize = if self.frame_count() == 0 {
            0
        } else {
            self.playhead + 1
        };
        proof {
            law_insert_keeps_sound(self@.doc(), at as int, self@.clipboard);
        }
        let change = self.editor.begin("Frames pasted", count);
        self.editor.doc.insert_frames_at(at, frames);
        self.playhead = at + count - 1;
        if count > 1 {
            self.selection = frames_from(at, count);
            self.anchor = Some(at);
            self.scope = ScopeChoice::Range;
        } else {
            self.selection = Vec::new();
            self.scope = ScopeChoice::ThisFrame;
        }
        self.after_edit();
        Some(change)
    }

    /// How many frames overlay `id` lies on.
    fn overlay_width(&self, id: OverlayId) -> (r: usize)
        ensures
            r == self@.width_of(id),
    {
        match self.editor.doc.overlay(id) {
            Some(o) => if o.range.start < o.range.end {
                o.range.end - o.range.start
            } else {
                0
            },
            None => 0,
        }
    }

    /// Move one overlay a step through the z-order, past the layer shown
    /// next to it. Keeps it selected, so the sidebar stays on the layer that
    /// just moved rather than on whatever row now sits under the pointer.
    pub fn restack_overlay(&mut self, id: OverlayId, up: bool)
        requires
            old(self).wf(),
            old(self)@.roomy(),
        ensures
            final(self)@ == old(self)@.restacked(id, up),
    {
        let other = match self.restack_neighbour(id, up) {
            Some(other) => other,
            None => {
                return ;
            },
        };
        let touched = self.overlay_width(id);
        self.editor.begin("Overlay reordered", touched);
        self.editor.doc.restack_overlay(id, other, up);
        self.selected_overlay = Some(id);
        self.after_edit();
    }

    /// Remove one overlay, whichever way it was named: the sidebar's trash
    /// button and the band menu act on the selection, the layer list's X on
    /// its own row.
    pub fn delete_overlay(&mut self, id: OverlayId) -> (r: Effect)
        requires
            old(self).wf(),
            old(self)@.roomy(),
        ensures
            (final(self)@, r@) == old(self)@.overlay_deleted(id),
    {
        proof {
            lemma_find_id(self@.doc().overlays, id, 0);
        }
        match self.editor.doc.position(id) {
            Some(_) => {
                let touched = self.overlay_width(id);
                let change = self.editor.begin("Overlay deleted", touched);
                self.editor.doc.remove_overlay(id);
                self.after_edit();
                toast_if_document_wide(change, self.frame_count())
            },
            None => Effect::Nothing,
        }
    }

    /// Insert one frame at `at` as a single "Frame added" history step and move
    /// the playhead onto it.
    pub fn splice_frame(&mut self, at: usize, frame: Frame) -> (r: Effect)
        requires
            old(self).wf(),
            old(self)@.roomy(),
            frame.wf(),
            at <= old(self)@.count(),
        ensures
            (final(self)@, r@) == old(self)@.frame_spliced(at as int, frame@),
    {
        proof {
            assert(whole(seq![frame@]));
            law_insert_keeps_sound(self@.doc(), at as int, seq![frame@]);
        }
        let total = self.frame_count();
        let change = self.editor.begin("Frame added", 1);
        self.editor.doc.insert_frame_at(at, frame);
        self.playhead = at;
        self.after_edit();
        toast_if_document_wide(change, total)
    }

    /// Where an edit of overlay `id` lands: the scope decides, and a scope
    /// narrower than the overlay splits it, so the rest keeps what it had.
    pub fn edit_span_for(&self, id: OverlayId) -> (r: Range<usize>)
        ensures
            r == self@.span_for(id),
    {
        proof {
            lemma_find_id(self@.doc().overlays, id, 0);
        }
        let range = match self.editor.doc.overlay(id) {
            Some(o) => o.range.start..o.range.end,
            None => 0..0,
        };
        overlay_edit_span(range, self.scope_span(), self.playhead)
    }

    /// Put a text on overlay `id`, where the scope lands.
    pub fn edit_text(&mut self, id: OverlayId, text: String)
        requires
            old(self).wf(),
            old(self)@.roomy(),
        ensures
            final(self)@ == if old(self)@.reaches(id) {
                old(self)@.overlay_changed("Text edited"@, id, |o: Overlay| with_text(o, text))
            } else {
                old(self)@
            },
    {
        let span = self.edit_span_for(id);
        if span.start >= span.end {
            return ;
        }
        self.editor.begin("Text edited", span.end - span.start);
        let ghost f = |o: Overlay| with_text(o, text);
        let ghost doc = self.editor.doc@;
        let put = |o: &mut Overlay|
            ensures
                *final(o) == with_text(*old(o), text),
            {
                match &mut o.kind {
                    OverlayKind::Text(t) => {
                        t.text = text;
                    },
                    _ => {},
                }
            };
        let (edited, _) = self.editor.doc.edit_on_frames(id, span, put);
        assert((self.editor.doc@, edited) == overlay_edited(doc, id, span, f));
        self.selected_overlay = Some(edited);
        self.after_edit();
    }

    /// Set a property of overlay `id`, where the scope lands.
    pub fn restyle(&mut self, id: OverlayId, prop: OverlayProp)
        requires
            old(self).wf(),
            old(self)@.roomy(),
        ensures
            final(self)@ == if old(self)@.reaches(id) {
                old(self)@.overlay_changed(
                    "Overlay restyled"@,
                    id,
                    |o: Overlay| Overlay { kind: prop.applied(o.kind), ..o },
                )
            } else {
                old(self)@
            },
    {
        let span = self.edit_span_for(id);
        if span.start >= span.end {
            return ;
        }
        self.editor.begin("Overlay restyled", span.end - span.start);
        let ghost f = |o: Overlay| Overlay { kind: prop.applied(o.kind), ..o };
        let ghost doc = self.editor.doc@;
        let put = |o: &mut Overlay|
            ensures
                *final(o) == (Overlay { kind: prop.applied(old(o).kind), ..*old(o) }),
            {
                prop.apply(&mut o.kind);
            };
        let (edited, _) = self.editor.doc.edit_on_frames(id, span, put);
        assert((self.editor.doc@, edited) == overlay_edited(doc, id, span, f));
        self.selected_overlay = Some(edited);
        self.after_edit();
    }

    /// Put overlay `id` in a box, where the scope lands.
    pub fn reshape(&mut self, id: OverlayId, label: &str, transform: Transform) -> (r: Effect)
        requires
            old(self).wf(),
            old(self)@.roomy(),
        ensures
            if old(self)@.reaches(id) {
                &&& final(self)@ == old(self)@.overlay_changed(
                    label@,
                    id,
                    |o: Overlay| Overlay { transform, ..o },
                )
                &&& r@ == toast_for(
                    label@,
                    old(self)@.span_for(id).end - old(self)@.span_for(id).start,
                    old(self)@.count() as int,
                )
            } else {
                final(self)@ == old(self)@ && r@ == EffectView::Nothing
            },
    {
        let span = self.edit_span_for(id);
        if span.start >= span.end {
            return Effect::Nothing;
        }
        let change = self.editor.begin(label, span.end - span.start);
        let ghost f = |o: Overlay| Overlay { transform, ..o };
        let ghost doc = self.editor.doc@;
        let put = |o: &mut Overlay|
            ensures
                *final(o) == (Overlay { transform, ..*old(o) }),
            {
                o.transform = transform;
            };
        let (edited, _) = self.editor.doc.edit_on_frames(id, span, put);
        assert((self.editor.doc@, edited) == overlay_edited(doc, id, span, f));
        self.selected_overlay = Some(edited);
        self.after_edit();
        toast_if_document_wide(change, self.frame_count())
    }

    /// One crop, threaded like a resize or zoom: cropping copies the kept
    /// region rather than resampling it, but a few hundred full frames is
    /// still real work, and it must not freeze the window either. A
    /// full-canvas crop is ignored so the dialog's defaults do not create an
    /// empty undo step.
    pub fn start_crop(&mut self, rect: Rect) -> (r: Effect)
        ensures
            (final(self)@, r@) == old(self)@.crop_started(rect),
            final(self).editor == old(self).editor,
    {
        if !crop_changes_canvas(self.editor.doc.size(), (rect.x, rect.y, rect.w, rect.h)) {
            return Effect::Nothing;
        }
        self.crop_tool = false;
        self.busy = Some(
            Busy { kind: BusyKind::Crop, done: 0, total: Some(self.frame_count()) },
        );
        Effect::Work(FrameWork::Crop { rect })
    }

    /// Fill the canvas from the drawn crop box on `frames`, threaded like a
    /// resize. No-op if no box is drawn, it degenerates, or `frames` is empty.
    pub fn start_zoom(&mut self, frames: Vec<usize>, rect: Option<Rect>) -> (r: Effect)
        ensures
            (final(self)@, r@) == old(self)@.zoom_started(frames@, rect),
            final(self).editor == old(self).editor,
    {
        if self.crop_rect.is_none() || frames.len() == 0 {
            return Effect::Nothing;
        }
        match rect {
            Some(rect) => {
                self.crop_rect = None;
                self.crop_tool = false;
                self.busy = Some(
                    Busy { kind: BusyKind::Zoom, done: 0, total: Some(frames.len()) },
                );
                Effect::Work(FrameWork::Zoom { frames, rect })
            },
            None => Effect::Nothing,
        }
    }

    /// Blank what lies outside the drawn crop box, on the frames in scope.
    pub fn start_shrink(&mut self, rect: Option<Rect>) -> (r: Effect)
        ensures
            (final(self)@, r@) == old(self)@.shrink_started(rect),
            final(self).editor == old(self).editor,
    {
        let work = self.shrink_work(rect);
        let drawn = self.crop_rect.is_some();
        self.crop_rect = None;
        if !drawn {
            return Effect::Nothing;
        }
        match work {
            Some(work) => {
                self.crop_tool = false;
                let total = work.touched(&self.editor.doc);
                self.busy = Some(Busy { kind: BusyKind::Shrink, done: 0, total: Some(total) });
                Effect::Work(work)
            },
            None => Effect::Nothing,
        }
    }
}

/// The overlay with this text on it, if it is one of text.
pub open spec fn with_text(o: Overlay, text: String) -> Overlay {
    match o.kind {
        OverlayKind::Text(t) => Overlay {
            kind: OverlayKind::Text(TextOverlay { text, ..t }),
            ..o
        },
        _ => o,
    }
}

} // verus!
